//! coverage.py JSON reports (formats 2 and 3), which say whether branches were measured.

use vstd::prelude::*;
use crate::json::{as_bool, as_str, as_u64, member, Json};
use super::{charge, ReportError, COVERAGE_BUDGET};
use super::diagnostics::read_usize;

verus! {

/// Why a coverage.py report was refused.
#[derive(Debug, Clone, Copy, PartialEq, Eq, Structural)]
pub enum CoveragePyError {
    /// The document does not have the report's shape.
    Malformed,
    /// A format other than 2 or 3, or no producer version.
    Unsupported,
    /// The report lists no source file.
    NoSources,
    /// A source path is unsafe or the normalized coverage exceeds its budget.
    Budget(ReportError),
    /// A line number is zero or repeated.
    InvalidLine,
    /// A line is both executed and missing, or both missing and excluded.
    LineContradiction,
    /// Branch records although branch measurement is off.
    DisabledBranches,
    /// No branch records although branches were measured.
    MissingBranches,
    /// A branch record is out of range or repeated.
    InvalidBranch,
    /// A branch is both executed and missing.
    BranchContradiction,
    /// A branch starts on an excluded line, a line without a record, or (when taken)
    /// a line that did not run.
    BranchLineContradiction,
    /// A summary counter contradicts the records.
    SummaryMismatch,
    /// A total overflows.
    Overflow,
}

/// A coverage.py summary: line counts, and branch counts when measured.
pub struct SummaryModel {
    pub covered_lines: usize,
    pub num_statements: usize,
    pub missing_lines: usize,
    pub excluded_lines: usize,
    pub num_branches: Option<usize>,
    pub num_partial_branches: Option<usize>,
    pub covered_branches: Option<usize>,
    pub missing_branches: Option<usize>,
}

/// One file's records.
pub struct FileModel {
    pub executed: Seq<usize>,
    pub missing: Seq<usize>,
    pub excluded: Seq<usize>,
    pub summary: SummaryModel,
    pub executed_branches: Option<Seq<(i64, i64)>>,
    pub missing_branches: Option<Seq<(i64, i64)>>,
}

/// A whole report: format, producer version, branch flag, files by name, totals.
pub struct ReportModel {
    pub format: u32,
    pub version: Seq<char>,
    pub branch: bool,
    pub files: Seq<(Seq<char>, FileModel)>,
    pub totals: SummaryModel,
}

/// A list of unsigned integers.
pub open spec fn usizes(items: Seq<Json>) -> Option<Seq<usize>>
    decreases items.len(),
{
    if items.len() == 0 {
        Some(seq![])
    } else {
        match (usizes(items.drop_last()), read_usize(items.last())) {
            (Some(rest), Some(n)) => Some(rest.push(n)),
            _ => None,
        }
    }
}

/// A JSON number that is an exact signed 64-bit integer.
pub open spec fn as_i64(v: Json) -> Option<i64> {
    match v {
        Json::Number(n) => n.signed,
        _ => None,
    }
}

/// A pair `[from, to]` of signed integers.
pub open spec fn arc_model(v: Json) -> Option<(i64, i64)> {
    match v {
        Json::Array(items) => if items@.len() == 2 {
            match (as_i64(items@[0]), as_i64(items@[1])) {
                (Some(a), Some(b)) => Some((a, b)),
                _ => None,
            }
        } else {
            None
        },
        _ => None,
    }
}

/// A list of arcs.
pub open spec fn arcs_model(items: Seq<Json>) -> Option<Seq<(i64, i64)>>
    decreases items.len(),
{
    if items.len() == 0 {
        Some(seq![])
    } else {
        match (arcs_model(items.drop_last()), arc_model(items.last())) {
            (Some(rest), Some(a)) => Some(rest.push(a)),
            _ => None,
        }
    }
}

/// A required list of unsigned integers.
pub open spec fn usizes_field(v: Json, key: Seq<char>) -> Option<Seq<usize>> {
    match member(v, key) {
        Some(Json::Array(items)) => usizes(items@),
        _ => None,
    }
}

/// An optional list of arcs: absent or `null` reads as `None`; `None` outside means
/// invalid.
pub open spec fn arcs_field(v: Json, key: Seq<char>) -> Option<Option<Seq<(i64, i64)>>> {
    match member(v, key) {
        None => Some(None),
        Some(Json::Null) => Some(None),
        Some(Json::Array(items)) => match arcs_model(items@) {
            Some(a) => Some(Some(a)),
            None => None,
        },
        Some(_) => None,
    }
}

/// A summary object (unknown members ignored).
pub open spec fn summary_model(v: Json) -> Option<SummaryModel> {
    if !(v is Object) {
        None
    } else {
        match (
            super::diagnostics::usize_field(v, "covered_lines"@),
            super::diagnostics::usize_field(v, "num_statements"@),
            super::diagnostics::usize_field(v, "missing_lines"@),
            super::diagnostics::usize_field(v, "excluded_lines"@),
        ) {
            (Some(a), Some(b), Some(c), Some(d)) => match (
                super::diagnostics::opt_usize_field(v, "num_branches"@),
                super::diagnostics::opt_usize_field(v, "num_partial_branches"@),
                super::diagnostics::opt_usize_field(v, "covered_branches"@),
                super::diagnostics::opt_usize_field(v, "missing_branches"@),
            ) {
                (Some(e), Some(f), Some(g), Some(h)) => Some(SummaryModel {
                    covered_lines: a,
                    num_statements: b,
                    missing_lines: c,
                    excluded_lines: d,
                    num_branches: e,
                    num_partial_branches: f,
                    covered_branches: g,
                    missing_branches: h,
                }),
                _ => None,
            },
            _ => None,
        }
    }
}

/// A file object (unknown members ignored).
pub open spec fn file_model(v: Json) -> Option<FileModel> {
    if !(v is Object) {
        None
    } else {
        match (usizes_field(v, "executed_lines"@), usizes_field(v, "missing_lines"@), usizes_field(v, "excluded_lines"@)) {
            (Some(executed), Some(missing), Some(excluded)) => match member(v, "summary"@) {
                Some(s) => match (summary_model(s), arcs_field(v, "executed_branches"@), arcs_field(v, "missing_branches"@)) {
                    (Some(summary), Some(executed_branches), Some(missing_branches)) => Some(FileModel {
                        executed,
                        missing,
                        excluded,
                        summary,
                        executed_branches,
                        missing_branches,
                    }),
                    _ => None,
                },
                None => None,
            },
            _ => None,
        }
    }
}

/// The members of the `files` object, each read as a file.
pub open spec fn files_model(members: Seq<(String, Json)>) -> Option<Seq<(Seq<char>, FileModel)>>
    decreases members.len(),
{
    if members.len() == 0 {
        Some(seq![])
    } else {
        match (files_model(members.drop_last()), file_model(members.last().1)) {
            (Some(rest), Some(f)) => Some(rest.push((members.last().0@, f))),
            _ => None,
        }
    }
}

/// The `meta` object: format, version and branch flag.
pub open spec fn meta_model(v: Json) -> Option<(u32, Seq<char>, bool)> {
    if !(v is Object) {
        None
    } else {
        match (member(v, "format"@), member(v, "version"@), member(v, "branch_coverage"@)) {
            (Some(f), Some(ver), Some(b)) => match (as_u64(f), as_str(ver), as_bool(b)) {
                (Some(n), Some(s), Some(flag)) => if n <= u32::MAX {
                    Some((n as u32, s, flag))
                } else {
                    None
                },
                _ => None,
            },
            _ => None,
        }
    }
}

/// The file names are pairwise distinct.
pub open spec fn distinct_names(files: Seq<(Seq<char>, FileModel)>) -> bool {
    forall|i: int, j: int| 0 <= i < j < files.len() ==> (#[trigger] files[i]).0 != (#[trigger] files[j]).0
}

/// A report document: `meta`, `files` (an object with distinct names) and `totals`.
pub open spec fn report_model(v: Json) -> Option<ReportModel> {
    if !(v is Object) {
        None
    } else {
        match (member(v, "meta"@), member(v, "files"@), member(v, "totals"@)) {
            (Some(m), Some(Json::Object(members)), Some(t)) => match (meta_model(m), files_model(members@), summary_model(t)) {
                (Some((format, version, branch)), Some(files), Some(totals)) => if distinct_names(files) {
                    Some(ReportModel { format, version, branch, files, totals })
                } else {
                    None
                },
                _ => None,
            },
            _ => None,
        }
    }
}

} // verus!

verus! {

/// Line numbers from a list: `None` when a number is zero or repeated.
pub open spec fn line_set(values: Seq<usize>) -> Option<Set<usize>> {
    if values.contains(0usize) || !values.no_duplicates() {
        None
    } else {
        Some(values.to_set())
    }
}

/// The executed lines; CPython's synthetic line zero of an empty module in line-only
/// mode is inventory evidence, not a line.
pub open spec fn executed_set(f: FileModel, branch: bool) -> Option<Set<usize>> {
    if !branch && f.executed == seq![0usize] && f.missing.len() == 0 && f.excluded.len() == 0
        && f.summary.num_statements == 0 {
        Some(Set::empty())
    } else {
        line_set(f.executed)
    }
}

/// The largest element, or zero for the empty set.
pub open spec fn set_max(s: Set<usize>) -> usize {
    if exists|m: usize| s.contains(m) && forall|x: usize| s.contains(x) ==> x <= m {
        choose|m: usize| s.contains(m) && forall|x: usize| s.contains(x) ==> x <= m
    } else {
        0
    }
}

/// The magnitude of an arc's destination.
pub open spec fn magnitude(t: i64) -> int {
    if t < 0 {
        -t
    } else {
        t as int
    }
}

/// An arc that starts or ends outside `1..=maximum` (destinations are signed).
pub open spec fn invalid_arc(a: (i64, i64), maximum: usize) -> bool {
    a.0 <= 0 || a.0 > maximum || a.1 == 0 || a.1 == i64::MIN || magnitude(a.1) > maximum
}

/// The arc set of a branch record list, as (source line, destination).
pub open spec fn arc_set(values: Option<Seq<(i64, i64)>>, enabled: bool, maximum: usize) -> Result<Set<(usize, i64)>, CoveragePyError> {
    if !enabled {
        if values is Some {
            Err(CoveragePyError::DisabledBranches)
        } else {
            Ok(Set::empty())
        }
    } else {
        match values {
            None => Err(CoveragePyError::MissingBranches),
            Some(v) => if (exists|i: int| 0 <= i < v.len() && invalid_arc(#[trigger] v[i], maximum)) || !v.no_duplicates() {
                Err(CoveragePyError::InvalidBranch)
            } else {
                Ok(v.map_values(|a: (i64, i64)| (a.0 as usize, a.1)).to_set())
            },
        }
    }
}

/// An arc starts on line `l`.
pub open spec fn starts_at(l: usize) -> spec_fn((usize, i64)) -> bool {
    |a: (usize, i64)| a.0 == l
}

/// An arc starts on one of `lines`.
pub open spec fn starts_in(lines: Set<usize>) -> spec_fn((usize, i64)) -> bool {
    |a: (usize, i64)| lines.contains(a.0)
}

/// The arcs that start on line `l`.
pub open spec fn arcs_on(arcs: Set<(usize, i64)>, l: usize) -> Set<(usize, i64)> {
    arcs.filter(starts_at(l))
}

/// The line and arc sets of one file.
pub struct FileSets {
    pub hit: Set<usize>,
    pub missing: Set<usize>,
    pub excluded: Set<usize>,
    pub lines: Set<usize>,
    pub executed_arcs: Set<(usize, i64)>,
    pub missing_arcs: Set<(usize, i64)>,
}

/// Check one file's records and form its sets.
pub open spec fn file_sets(f: FileModel, branch: bool) -> Result<FileSets, CoveragePyError> {
    match (executed_set(f, branch), line_set(f.missing), line_set(f.excluded)) {
        (Some(executed), Some(missing), Some(excluded)) => if !executed.disjoint(missing) || !missing.disjoint(excluded) {
            Err(CoveragePyError::LineContradiction)
        } else {
            let hit = executed.difference(excluded);
            let lines = hit.union(missing).union(excluded);
            let maximum = set_max(lines);
            match arc_set(f.executed_branches, branch, maximum) {
                Err(e) => Err(e),
                Ok(eb) => match arc_set(f.missing_branches, branch, maximum) {
                    Err(e) => Err(e),
                    Ok(mb) => if !eb.disjoint(mb) {
                        Err(CoveragePyError::BranchContradiction)
                    } else if (exists|a: (usize, i64)| eb.contains(a) && (excluded.contains(a.0) || !hit.contains(a.0)))
                        || (exists|a: (usize, i64)| mb.contains(a) && (excluded.contains(a.0) || !lines.contains(a.0))) {
                        Err(CoveragePyError::BranchLineContradiction)
                    } else {
                        Ok(FileSets { hit, missing, excluded, lines, executed_arcs: eb, missing_arcs: mb })
                    },
                },
            }
        },
        _ => Err(CoveragePyError::InvalidLine),
    }
}

/// The eight counts a summary states, as observed: covered lines, statements,
/// missing, excluded, branches, partial branches, covered branches, missing branches.
pub open spec fn observed(s: FileSets) -> Seq<int> {
    seq![
        s.hit.len() as int,
        (s.hit.len() + s.missing.len()) as int,
        s.missing.len() as int,
        s.excluded.len() as int,
        (s.executed_arcs.len() + s.missing_arcs.len()) as int,
        s.missing_arcs.filter(starts_in(s.hit)).len() as int,
        s.executed_arcs.len() as int,
        s.missing_arcs.len() as int,
    ]
}

/// A branch counter that contradicts the measurement: absent or different when
/// branches were measured, present when they were not.
pub open spec fn branch_counter_wrong(v: Option<usize>, observed: int, branch: bool) -> bool {
    (branch && v != Some(observed as usize)) || (branch && observed > usize::MAX) || (!branch && v is Some)
}

/// The summary contradicts the observed counts.
pub open spec fn summary_wrong(s: SummaryModel, obs: Seq<int>, branch: bool) -> bool {
    s.covered_lines != obs[0] || s.num_statements != obs[1] || s.missing_lines != obs[2]
        || s.excluded_lines != obs[3] || branch_counter_wrong(s.num_branches, obs[4], branch)
        || branch_counter_wrong(s.num_partial_branches, obs[5], branch) || branch_counter_wrong(
        s.covered_branches,
        obs[6],
        branch,
    ) || branch_counter_wrong(s.missing_branches, obs[7], branch)
}

/// The lines in increasing order.
pub open spec fn ascending(s: Seq<usize>) -> bool {
    forall|i: int, j: int| 0 <= i < j < s.len() ==> #[trigger] s[i] < #[trigger] s[j]
}

/// The elements of a finite set of lines in increasing order.
pub open spec fn sorted_lines(s: Set<usize>) -> Seq<usize> {
    choose|q: Seq<usize>| ascending(q) && q.to_set() == s
}

/// The coverage record of line `l` of file `name`.
pub open spec fn record_of(name: Seq<char>, s: FileSets, l: usize) -> (Seq<char>, usize, u64, usize, usize, bool) {
    (
        name,
        l,
        if s.hit.contains(l) { 1u64 } else { 0u64 },
        (arcs_on(s.executed_arcs, l).len() + arcs_on(s.missing_arcs, l).len()) as usize,
        arcs_on(s.executed_arcs, l).len() as usize,
        s.excluded.contains(l),
    )
}

/// Coverage records as plain values.
pub open spec fn records_view(coverage: Seq<super::CoverageLine>) -> Seq<(Seq<char>, usize, u64, usize, usize, bool)> {
    coverage.map_values(|c: super::CoverageLine| super::diagnostics::line_view(c))
}

/// The records of the lines `order` of file `name`.
pub open spec fn file_records(name: Seq<char>, s: FileSets, order: Seq<usize>) -> Seq<(Seq<char>, usize, u64, usize, usize, bool)> {
    order.map_values(|l: usize| record_of(name, s, l))
}

/// The eight totals after adding a file's counts.
pub open spec fn add_totals(totals: Seq<int>, counts: Seq<int>) -> Seq<int> {
    Seq::new(8, |i: int| totals[i] + counts[i])
}

/// The report read so far: file names, records, totals and the budget left.
pub struct PyProgress {
    pub files: Seq<Seq<char>>,
    pub records: Seq<(Seq<char>, usize, u64, usize, usize, bool)>,
    pub totals: Seq<int>,
    pub budget: int,
}

/// Charge `k` records naming `file`.
pub open spec fn charge_n(file: Seq<char>, remaining: int, k: nat) -> Result<int, ReportError> {
    super::lcov::charge_n(file, remaining, k)
}

/// Read one file into the report.
pub open spec fn read_file(st: PyProgress, name: Seq<char>, f: FileModel, branch: bool) -> Result<PyProgress, CoveragePyError> {
    match charge(name, st.budget) {
        Err(e) => Err(CoveragePyError::Budget(e)),
        Ok(left) => match file_sets(f, branch) {
            Err(e) => Err(e),
            Ok(s) => if summary_wrong(f.summary, observed(s), branch) {
                Err(CoveragePyError::SummaryMismatch)
            } else {
                let totals = add_totals(st.totals, observed(s));
                if exists|i: int| 0 <= i < 8 && totals[i] > usize::MAX {
                    Err(CoveragePyError::Overflow)
                } else {
                    let order = sorted_lines(s.lines);
                    match charge_n(name, left, order.len()) {
                        Err(e) => Err(CoveragePyError::Budget(e)),
                        Ok(rest) => Ok(PyProgress {
                            files: st.files.push(name),
                            records: st.records + file_records(name, s, order),
                            totals,
                            budget: rest,
                        }),
                    }
                }
            },
        },
    }
}

/// The files in increasing name order.
pub open spec fn by_name(files: Seq<(Seq<char>, FileModel)>) -> Seq<(Seq<char>, FileModel)> {
    choose|q: Seq<(Seq<char>, FileModel)>|
        (forall|i: int, j: int| 0 <= i < j < q.len() ==> super::lcov::text_less((#[trigger] q[i]).0, (#[trigger] q[j]).0))
            && q.to_set() == files.to_set()
}

/// Read the files `files` in order.
pub open spec fn py_scan(files: Seq<(Seq<char>, FileModel)>, branch: bool) -> Result<PyProgress, CoveragePyError>
    decreases files.len(),
{
    if files.len() == 0 {
        Ok(PyProgress { files: seq![], records: seq![], totals: Seq::new(8, |i: int| 0), budget: COVERAGE_BUDGET as int })
    } else {
        match py_scan(files.drop_last(), branch) {
            Err(e) => Err(e),
            Ok(st) => read_file(st, files.last().0, files.last().1, branch),
        }
    }
}

/// The producer description: tool, version, format and branch flag.
pub open spec fn producer_is(p: Json, r: ReportModel) -> bool {
    p matches Json::Object(m) && m@.len() == 4 && m@[0].0@ == "branch_coverage"@ && m@[0].1 == Json::Bool(r.branch)
        && m@[1].0@ == "format"@ && (m@[1].1 matches Json::Number(n) && n.unsigned == Some(r.format as u64)
        && n.signed == Some(r.format as i64) && n.text@ == crate::text::decimal_text(r.format as nat))
        && m@[2].0@ == "tool"@ && as_str(m@[2].1) == Some("coverage.py"@) && m@[3].0@ == "version"@
        && as_str(m@[3].1) == Some(r.version)
}

/// The outcome of reading a coverage.py document.
pub open spec fn coverage_py_outcome(v: Json, res: Result<super::Data, CoveragePyError>) -> bool {
    match report_model(v) {
        None => res == Err::<super::Data, CoveragePyError>(CoveragePyError::Malformed),
        Some(r) => if !(r.format == 2 || r.format == 3) || crate::text::blank(r.version) || r.version.contains('\0') {
            res == Err::<super::Data, CoveragePyError>(CoveragePyError::Unsupported)
        } else if r.files.len() == 0 {
            res == Err::<super::Data, CoveragePyError>(CoveragePyError::NoSources)
        } else {
            match py_scan(by_name(r.files), r.branch) {
                Err(e) => res == Err::<super::Data, CoveragePyError>(e),
                Ok(st) => if summary_wrong(r.totals, st.totals, r.branch) {
                    res == Err::<super::Data, CoveragePyError>(CoveragePyError::SummaryMismatch)
                } else {
                    res matches Ok(d) && d.issues@.len() == 0 && d.tests is None && d.coverage_roots@.len() == 0
                        && d.affected_files is None && d.sarif_runs@.len() == 0 && d.branch_coverage == r.branch
                        && (d.coverage_producer matches Some(p) && producer_is(p, r)) && super::texts(
                        d.coverage_files@,
                    ) == st.files && records_view(d.coverage@) == st.records
                },
            }
        },
    }
}

} // verus!

verus! {

/// Two increasing sequences with the same elements are equal.
pub proof fn ascending_unique(a: Seq<usize>, b: Seq<usize>)
    requires
        ascending(a),
        ascending(b),
        a.to_set() == b.to_set(),
    ensures
        a == b,
    decreases a.len(),
{
    if a.len() == 0 {
        if b.len() > 0 {
            assert(b.to_set().contains(b[0]));
        }
        assert(a =~= b);
    } else {
        assert(a.to_set().contains(a[0]));
        assert(b.to_set().contains(a[0]));
        let j = choose|j: int| 0 <= j < b.len() && b[j] == a[0];
        assert(b.len() > 0);
        assert(a.to_set().contains(b[0]));
        let k = choose|k: int| 0 <= k < a.len() && a[k] == b[0];
        if j > 0 && k > 0 {
            assert(b[0] < b[j]);
            assert(a[0] < a[k]);
        } else if j > 0 {
            assert(b[0] < b[j]);
        } else if k > 0 {
            assert(a[0] < a[k]);
        }
        assert(a[0] == b[0]);
        let a1 = a.drop_first();
        let b1 = b.drop_first();
        assert forall|x: usize| a1.to_set().contains(x) == b1.to_set().contains(x) by {
            if a1.contains(x) {
                let i = choose|i: int| 0 <= i < a1.len() && a1[i] == x;
                assert(a[i + 1] == x);
                assert(a[0] < a[i + 1]);
                assert(a.to_set().contains(x));
                assert(b.contains(x)) by {
                    assert(b.to_set().contains(x));
                }
                let t = choose|t: int| 0 <= t < b.len() && b[t] == x;
                assert(t != 0);
                assert(b1[t - 1] == x);
            }
            if b1.contains(x) {
                let i = choose|i: int| 0 <= i < b1.len() && b1[i] == x;
                assert(b[i + 1] == x);
                assert(b[0] < b[i + 1]);
                assert(a.contains(x)) by {
                    assert(b.to_set().contains(x));
                }
                let t = choose|t: int| 0 <= t < a.len() && a[t] == x;
                assert(t != 0);
                assert(a1[t - 1] == x);
            }
        }
        assert(a1.to_set() =~= b1.to_set());
        ascending_unique(a1, b1);
        assert(a =~= seq![a[0]] + a1);
        assert(b =~= seq![b[0]] + b1);
    }
}

/// The number of elements of `s` that satisfy `p`.
pub open spec fn count_where<A>(s: Seq<A>, p: spec_fn(A) -> bool) -> nat
    decreases s.len(),
{
    if s.len() == 0 {
        0
    } else {
        count_where(s.drop_last(), p) + if p(s.last()) { 1nat } else { 0nat }
    }
}

/// In a sequence without repeats, counting the elements that satisfy `p` counts
/// the matching elements of its set.
pub proof fn count_is_card<A>(s: Seq<A>, p: spec_fn(A) -> bool)
    requires
        s.no_duplicates(),
    ensures
        count_where(s, p) == s.to_set().filter(p).len(),
        s.to_set().filter(p).finite(),
    decreases s.len(),
{
    broadcast use vstd::set::group_set_axioms, vstd::seq_lib::group_seq_properties;

    if s.len() == 0 {
        assert(s.to_set().filter(p) =~= Set::<A>::empty());
    } else {
        let r = s.drop_last();
        let x = s.last();
        assert(r.no_duplicates()) by {
            assert forall|i: int, j: int| 0 <= i < r.len() && 0 <= j < r.len() && i != j implies r[i] != r[j] by {
                assert(s[i] == r[i] && s[j] == r[j]);
            }
        }
        count_is_card(r, p);
        assert(s.to_set() =~= r.to_set().insert(x));
        assert(!r.to_set().contains(x)) by {
            if r.contains(x) {
                let i = choose|i: int| 0 <= i < r.len() && r[i] == x;
                assert(s[i] == s[s.len() - 1]);
            }
        }
        if p(x) {
            assert(s.to_set().filter(p) =~= r.to_set().filter(p).insert(x));
        } else {
            assert(s.to_set().filter(p) =~= r.to_set().filter(p));
        }
    }
}

/// An increasing sequence has no repeats.
pub proof fn ascending_no_duplicates(s: Seq<usize>)
    requires
        ascending(s),
    ensures
        s.no_duplicates(),
{
    assert forall|i: int, j: int| 0 <= i < s.len() && 0 <= j < s.len() && i != j implies s[i] != s[j] by {
        if i < j {
            assert(s[i] < s[j]);
        } else {
            assert(s[j] < s[i]);
        }
    }
}

} // verus!

verus! {

/// Whether `x` occurs in `v`.
fn includes(v: &Vec<usize>, x: usize) -> (res: bool)
    ensures
        res == v@.contains(x),
{
    let mut i: usize = 0;
    while i < v.len()
        invariant
            0 <= i <= v@.len(),
            forall|k: int| 0 <= k < i ==> v@[k] != x,
        decreases v@.len() - i,
    {
        if v[i] == x {
            assert(v@[i as int] == x);
            return true;
        }
        i = i + 1;
    }
    false
}

/// The first position in increasing `v` whose element is not below `x`.
fn position(v: &Vec<usize>, x: usize) -> (p: usize)
    requires
        ascending(v@),
    ensures
        p <= v@.len(),
        forall|k: int| 0 <= k < p ==> v@[k] < x,
        forall|k: int| p <= k < v@.len() ==> v@[k] >= x,
{
    let mut p: usize = 0;
    while p < v.len() && v[p] < x
        invariant
            0 <= p <= v@.len(),
            ascending(v@),
            forall|k: int| 0 <= k < p ==> v@[k] < x,
        decreases v@.len() - p,
    {
        p = p + 1;
    }
    assert forall|k: int| p <= k < v@.len() implies v@[k] >= x by {
        if k > p {
            assert(v@[p as int] < v@[k]);
        }
    }
    p
}

/// Add `x` to increasing `v` unless it is there.
fn insert_line(v: &mut Vec<usize>, x: usize)
    requires
        ascending(old(v)@),
    ensures
        ascending(final(v)@),
        final(v)@.to_set() == old(v)@.to_set().insert(x),
{
    let p = position(v, x);
    if p < v.len() && v[p] == x {
        assert(v@.to_set().insert(x) =~= v@.to_set()) by {
            assert(v@.contains(x));
        }
        return;
    }
    let ghost before = v@;
    v.insert(p, x);
    assert(v@ =~= before.insert(p as int, x));
    assert forall|i: int, j: int| 0 <= i < j < v@.len() implies #[trigger] v@[i] < #[trigger] v@[j] by {
        if j < p {
            assert(v@[i] == before[i] && v@[j] == before[j]);
        } else if j == p {
            assert(v@[i] == before[i]);
        } else if i == p {
            assert(v@[j] == before[j - 1]);
        } else if i < p {
            assert(v@[i] == before[i] && v@[j] == before[j - 1]);
        } else {
            assert(v@[i] == before[i - 1] && v@[j] == before[j - 1]);
        }
    }
    assert forall|y: usize| v@.to_set().contains(y) == before.to_set().insert(x).contains(y) by {
        if v@.contains(y) {
            let k = choose|k: int| 0 <= k < v@.len() && v@[k] == y;
            if k < p {
                assert(before[k] == y);
            } else if k > p {
                assert(before[k - 1] == y);
            }
        }
        if before.contains(y) {
            let k = choose|k: int| 0 <= k < before.len() && before[k] == y;
            if k < p {
                assert(v@[k] == y);
            } else {
                assert(v@[k + 1] == y);
            }
        }
        if y == x {
            assert(v@[p as int] == y);
        }
    }
    assert(v@.to_set() =~= before.to_set().insert(x));
}

/// The line numbers of `values` in increasing order, or `None` when one is zero or
/// repeated.
fn sorted_unique(values: &Vec<usize>) -> (res: Option<Vec<usize>>)
    ensures
        res matches Some(s) ==> line_set(values@) == Some(s@.to_set()) && ascending(s@),
        res is None ==> line_set(values@) is None,
{
    let mut out: Vec<usize> = Vec::new();
    let mut i: usize = 0;
    assert(values@.subrange(0, 0).to_set() =~= out@.to_set());
    while i < values.len()
        invariant
            0 <= i <= values@.len(),
            ascending(out@),
            out@.to_set() == values@.subrange(0, i as int).to_set(),
            values@.subrange(0, i as int).no_duplicates(),
            !values@.subrange(0, i as int).contains(0usize),
        decreases values@.len() - i,
    {
        let x = values[i];
        let ghost prefix = values@.subrange(0, i as int);
        let ghost next = values@.subrange(0, i + 1);
        assert(next =~= prefix.push(x));
        if x == 0 {
            assert(values@.contains(0usize)) by {
                assert(values@[i as int] == 0);
            }
            return None;
        }
        let p = position(&out, x);
        if p < out.len() && out[p] == x {
            proof {
                assert(out@.to_set().contains(x));
                assert(prefix.contains(x));
                let k = choose|k: int| 0 <= k < prefix.len() && prefix[k] == x;
                assert(values@[k] == values@[i as int]);
            }
            return None;
        }
        assert(!prefix.contains(x)) by {
            if prefix.contains(x) {
                assert(out@.to_set().contains(x));
                let k = choose|k: int| 0 <= k < out@.len() && out@[k] == x;
                if k < p {
                } else if k > p {
                    assert(out@[p as int] < out@[k]);
                }
            }
        }
        insert_line(&mut out, x);
        assert(next.to_set() =~= prefix.to_set().insert(x)) by {
            broadcast use vstd::seq_lib::group_seq_properties;
        }
        assert(next.no_duplicates()) by {
            assert forall|a: int, b: int| 0 <= a < next.len() && 0 <= b < next.len() && a != b implies next[a] != next[b] by {
                if a < prefix.len() && b < prefix.len() {
                    assert(prefix[a] == next[a] && prefix[b] == next[b]);
                } else if a < prefix.len() {
                    assert(prefix.contains(next[a]));
                } else {
                    assert(prefix.contains(next[b]));
                }
            }
        }
        assert(!next.contains(0usize)) by {
            if next.contains(0usize) {
                let k = choose|k: int| 0 <= k < next.len() && next[k] == 0usize;
                if k < prefix.len() {
                    assert(prefix[k] == 0usize);
                }
            }
        }
        i = i + 1;
    }
    assert(values@.subrange(0, i as int) =~= values@);
    Some(out)
}

} // verus!

verus! {

/// The arcs as (source line, destination).
pub open spec fn arc_pairs(v: Seq<(i64, i64)>) -> Seq<(usize, i64)> {
    v.map_values(|a: (i64, i64)| (a.0 as usize, a.1))
}

/// The plain view of an optional arc list.
pub open spec fn opt_arcs(v: Option<Vec<(i64, i64)>>) -> Option<Seq<(i64, i64)>> {
    match v {
        Some(x) => Some(x@),
        None => None,
    }
}

fn arc_invalid(a: (i64, i64), maximum: usize) -> (res: bool)
    ensures
        res == invalid_arc(a, maximum),
{
    if a.0 <= 0 || a.1 == 0 || a.1 == i64::MIN {
        return true;
    }
    if a.0 as u64 > maximum as u64 {
        return true;
    }
    let m: u64 = if a.1 < 0 { (-a.1) as u64 } else { a.1 as u64 };
    m > maximum as u64
}

/// The arc set of a branch record list.
fn arc_vec(values: &Option<Vec<(i64, i64)>>, enabled: bool, maximum: usize) -> (res: Result<Vec<(usize, i64)>, CoveragePyError>)
    ensures
        match arc_set(opt_arcs(*values), enabled, maximum) {
            Ok(s) => res matches Ok(v) && v@.to_set() == s && v@.no_duplicates(),
            Err(e) => res == Err::<Vec<(usize, i64)>, CoveragePyError>(e),
        },
{
    if !enabled {
        if values.is_some() {
            return Err(CoveragePyError::DisabledBranches);
        }
        let out: Vec<(usize, i64)> = Vec::new();
        assert(out@.to_set() =~= Set::<(usize, i64)>::empty());
        return Ok(out);
    }
    let v = match values {
        None => return Err(CoveragePyError::MissingBranches),
        Some(v) => v,
    };
    let mut i: usize = 0;
    while i < v.len()
        invariant
            0 <= i <= v@.len(),
            opt_arcs(*values) == Some(v@),
            enabled,
            forall|k: int| 0 <= k < i ==> !invalid_arc(#[trigger] v@[k], maximum),
        decreases v@.len() - i,
    {
        if arc_invalid(v[i], maximum) {
            return Err(CoveragePyError::InvalidBranch);
        }
        i = i + 1;
    }
    let mut a: usize = 0;
    while a < v.len()
        invariant
            0 <= a <= v@.len(),
            opt_arcs(*values) == Some(v@),
            enabled,
            forall|k: int| 0 <= k < v@.len() ==> !invalid_arc(#[trigger] v@[k], maximum),
            forall|x: int, y: int| 0 <= x < a && 0 <= y < v@.len() && x != y ==> v@[x] != v@[y],
        decreases v@.len() - a,
    {
        let mut b: usize = 0;
        while b < v.len()
            invariant
                0 <= a < v@.len(),
                0 <= b <= v@.len(),
                opt_arcs(*values) == Some(v@),
                enabled,
                forall|y: int| 0 <= y < b && y != a ==> v@[a as int] != v@[y],
            decreases v@.len() - b,
        {
            if b != a && v[a].0 == v[b].0 && v[a].1 == v[b].1 {
                assert(v@[a as int] == v@[b as int]);
                return Err(CoveragePyError::InvalidBranch);
            }
            b = b + 1;
        }
        a = a + 1;
    }
    let mut out: Vec<(usize, i64)> = Vec::new();
    let mut k: usize = 0;
    while k < v.len()
        invariant
            0 <= k <= v@.len(),
            opt_arcs(*values) == Some(v@),
            enabled,
            forall|x: int, y: int| 0 <= x < v@.len() && 0 <= y < v@.len() && x != y ==> v@[x] != v@[y],
            forall|q: int| 0 <= q < v@.len() ==> !invalid_arc(#[trigger] v@[q], maximum),
            out@ == arc_pairs(v@.subrange(0, k as int)),
        decreases v@.len() - k,
    {
        let x = v[k];
        assert(!invalid_arc(v@[k as int], maximum));
        out.push((x.0 as usize, x.1));
        assert(out@ =~= arc_pairs(v@.subrange(0, k + 1)));
        k = k + 1;
    }
    assert(v@.subrange(0, k as int) =~= v@);
    assert(out@.no_duplicates()) by {
        assert forall|x: int, y: int| 0 <= x < out@.len() && 0 <= y < out@.len() && x != y implies out@[x] != out@[y] by {
            assert(!invalid_arc(v@[x], maximum));
            assert(!invalid_arc(v@[y], maximum));
            assert(v@[x] != v@[y]);
        }
    }
    Ok(out)
}

} // verus!

verus! {

/// A summary as read.
struct SummaryData {
    covered_lines: usize,
    num_statements: usize,
    missing_lines: usize,
    excluded_lines: usize,
    num_branches: Option<usize>,
    num_partial_branches: Option<usize>,
    covered_branches: Option<usize>,
    missing_branches: Option<usize>,
}

spec fn summary_view(s: SummaryData) -> SummaryModel {
    SummaryModel {
        covered_lines: s.covered_lines,
        num_statements: s.num_statements,
        missing_lines: s.missing_lines,
        excluded_lines: s.excluded_lines,
        num_branches: s.num_branches,
        num_partial_branches: s.num_partial_branches,
        covered_branches: s.covered_branches,
        missing_branches: s.missing_branches,
    }
}

/// One file's records as read.
struct FileData {
    executed: Vec<usize>,
    missing: Vec<usize>,
    excluded: Vec<usize>,
    summary: SummaryData,
    executed_branches: Option<Vec<(i64, i64)>>,
    missing_branches: Option<Vec<(i64, i64)>>,
}

spec fn file_view(f: FileData) -> FileModel {
    FileModel {
        executed: f.executed@,
        missing: f.missing@,
        excluded: f.excluded@,
        summary: summary_view(f.summary),
        executed_branches: opt_arcs(f.executed_branches),
        missing_branches: opt_arcs(f.missing_branches),
    }
}

/// One file's line and arc sets, lines in increasing order.
struct SetsData {
    hit: Vec<usize>,
    missing: Vec<usize>,
    excluded: Vec<usize>,
    lines: Vec<usize>,
    executed_arcs: Vec<(usize, i64)>,
    missing_arcs: Vec<(usize, i64)>,
}

spec fn sets_view(e: SetsData) -> FileSets {
    FileSets {
        hit: e.hit@.to_set(),
        missing: e.missing@.to_set(),
        excluded: e.excluded@.to_set(),
        lines: e.lines@.to_set(),
        executed_arcs: e.executed_arcs@.to_set(),
        missing_arcs: e.missing_arcs@.to_set(),
    }
}

spec fn sets_inv(e: SetsData) -> bool {
    &&& ascending(e.hit@)
    &&& ascending(e.missing@)
    &&& ascending(e.excluded@)
    &&& ascending(e.lines@)
    &&& e.executed_arcs@.no_duplicates()
    &&& e.missing_arcs@.no_duplicates()
}

/// Whether no element of `a` is in `b`.
fn disjoint_lines(a: &Vec<usize>, b: &Vec<usize>) -> (res: bool)
    ensures
        res == a@.to_set().disjoint(b@.to_set()),
{
    let mut i: usize = 0;
    while i < a.len()
        invariant
            0 <= i <= a@.len(),
            forall|k: int| 0 <= k < i ==> !b@.contains(#[trigger] a@[k]),
        decreases a@.len() - i,
    {
        if includes(b, a[i]) {
            assert(a@.to_set().contains(a@[i as int]));
            assert(b@.to_set().contains(a@[i as int]));
            return false;
        }
        i = i + 1;
    }
    assert forall|x: usize| !(a@.to_set().contains(x) && b@.to_set().contains(x)) by {
        if a@.contains(x) {
            let k = choose|k: int| 0 <= k < a@.len() && a@[k] == x;
        }
    }
    true
}

/// The lines of `a` not in `b`, in order.
fn without(a: &Vec<usize>, b: &Vec<usize>) -> (res: Vec<usize>)
    requires
        ascending(a@),
    ensures
        ascending(res@),
        res@.to_set() == a@.to_set().difference(b@.to_set()),
{
    let mut out: Vec<usize> = Vec::new();
    let mut i: usize = 0;
    while i < a.len()
        invariant
            0 <= i <= a@.len(),
            ascending(a@),
            ascending(out@),
            forall|k: int| 0 <= k < out@.len() ==> exists|j: int| 0 <= j < i && a@[j] == #[trigger] out@[k],
            forall|x: usize| out@.contains(x) <==> (exists|j: int| 0 <= j < i && a@[j] == x && !b@.contains(x)),
        decreases a@.len() - i,
    {
        let x = a[i];
        if !includes(b, x) {
            let ghost before = out@;
            out.push(x);
            assert forall|p: int, q: int| 0 <= p < q < out@.len() implies #[trigger] out@[p] < #[trigger] out@[q] by {
                if q == out@.len() - 1 {
                    let j = choose|j: int| 0 <= j < i && a@[j] == before[p];
                    assert(a@[j] < a@[i as int]);
                } else {
                    assert(before[p] < before[q]);
                }
            }
            assert forall|k: int| 0 <= k < out@.len() implies exists|j: int| 0 <= j < i + 1 && a@[j] == #[trigger] out@[k] by {
                if k < before.len() {
                    assert(out@[k] == before[k]);
                } else {
                    assert(a@[i as int] == out@[k]);
                }
            }
            assert forall|y: usize| out@.contains(y) <==> (exists|j: int| 0 <= j < i + 1 && a@[j] == y && !b@.contains(y)) by {
                if out@.contains(y) {
                    let k = choose|k: int| 0 <= k < out@.len() && out@[k] == y;
                    if k < before.len() {
                        assert(before[k] == y);
                        assert(before.contains(y));
                    } else {
                        assert(a@[i as int] == y);
                    }
                }
                if exists|j: int| 0 <= j < i + 1 && a@[j] == y && !b@.contains(y) {
                    let j = choose|j: int| 0 <= j < i + 1 && a@[j] == y && !b@.contains(y);
                    if j < i {
                        assert(before.contains(y));
                        let k = choose|k: int| 0 <= k < before.len() && before[k] == y;
                        assert(out@[k] == y);
                    } else {
                        assert(out@[out@.len() - 1] == y);
                    }
                }
            }
        } else {
            assert forall|y: usize| out@.contains(y) <==> (exists|j: int| 0 <= j < i + 1 && a@[j] == y && !b@.contains(y)) by {
                if exists|j: int| 0 <= j < i + 1 && a@[j] == y && !b@.contains(y) {
                    let j = choose|j: int| 0 <= j < i + 1 && a@[j] == y && !b@.contains(y);
                    if j == i {
                        assert(b@.contains(y));
                    }
                }
            }
        }
        i = i + 1;
    }
    assert forall|x: usize| out@.to_set().contains(x) == a@.to_set().difference(b@.to_set()).contains(x) by {
        if a@.contains(x) && !b@.contains(x) {
            let j = choose|j: int| 0 <= j < a@.len() && a@[j] == x;
        }
    }
    assert(out@.to_set() =~= a@.to_set().difference(b@.to_set()));
    out
}

/// The last element of increasing `v` is the largest of its set.
proof fn last_is_max(v: Seq<usize>)
    requires
        ascending(v),
    ensures
        set_max(v.to_set()) == if v.len() == 0 { 0 } else { v.last() },
{
    let s = v.to_set();
    if v.len() == 0 {
        assert(!exists|m: usize| s.contains(m) && forall|x: usize| s.contains(x) ==> x <= m);
    } else {
        let m = v.last();
        assert(s.contains(m));
        assert forall|x: usize| s.contains(x) implies x <= m by {
            let k = choose|k: int| 0 <= k < v.len() && v[k] == x;
            if k < v.len() - 1 {
                assert(v[k] < v[v.len() - 1]);
            }
        }
        let c = choose|c: usize| s.contains(c) && forall|x: usize| s.contains(x) ==> x <= c;
        assert(c <= m && m <= c);
    }
}

} // verus!

verus! {

/// Whether arc sets `a` and `b` share an arc.
fn arcs_meet(a: &Vec<(usize, i64)>, b: &Vec<(usize, i64)>) -> (res: bool)
    ensures
        res == !a@.to_set().disjoint(b@.to_set()),
{
    let mut i: usize = 0;
    while i < a.len()
        invariant
            0 <= i <= a@.len(),
            forall|k: int| 0 <= k < i ==> !b@.contains(#[trigger] a@[k]),
        decreases a@.len() - i,
    {
        let mut j: usize = 0;
        while j < b.len()
            invariant
                0 <= i < a@.len(),
                0 <= j <= b@.len(),
                forall|q: int| 0 <= q < j ==> b@[q] != a@[i as int],
            decreases b@.len() - j,
        {
            if b[j].0 == a[i].0 && b[j].1 == a[i].1 {
                assert(b@[j as int] == a@[i as int]);
                assert(a@.to_set().contains(a@[i as int]));
                assert(b@.to_set().contains(a@[i as int]));
                return true;
            }
            j = j + 1;
        }
        i = i + 1;
    }
    assert forall|x: (usize, i64)| !(a@.to_set().contains(x) && b@.to_set().contains(x)) by {
        if a@.contains(x) {
            let k = choose|k: int| 0 <= k < a@.len() && a@[k] == x;
        }
    }
    false
}

/// Whether some arc of `arcs` starts on a line in `bad` or not in `good`.
fn arc_off_lines(arcs: &Vec<(usize, i64)>, bad: &Vec<usize>, good: &Vec<usize>) -> (res: bool)
    ensures
        res == exists|a: (usize, i64)| arcs@.to_set().contains(a) && (bad@.to_set().contains(a.0) || !good@.to_set().contains(a.0)),
{
    let mut i: usize = 0;
    while i < arcs.len()
        invariant
            0 <= i <= arcs@.len(),
            forall|k: int| 0 <= k < i ==> !(bad@.contains((#[trigger] arcs@[k]).0) || !good@.contains(arcs@[k].0)),
        decreases arcs@.len() - i,
    {
        let a = arcs[i];
        if includes(bad, a.0) || !includes(good, a.0) {
            assert(arcs@.to_set().contains(arcs@[i as int]));
            assert(bad@.to_set().contains(a.0) || !good@.to_set().contains(a.0));
            return true;
        }
        i = i + 1;
    }
    assert forall|a: (usize, i64)| !(arcs@.to_set().contains(a) && (bad@.to_set().contains(a.0) || !good@.to_set().contains(a.0))) by {
        if arcs@.contains(a) {
            let k = choose|k: int| 0 <= k < arcs@.len() && arcs@[k] == a;
        }
    }
    false
}

/// Check one file's records and form its sets.
fn file_sets_exec(f: &FileData, branch: bool) -> (res: Result<SetsData, CoveragePyError>)
    ensures
        match file_sets(file_view(*f), branch) {
            Ok(s) => res matches Ok(e) && sets_view(e) == s && sets_inv(e),
            Err(x) => res == Err::<SetsData, CoveragePyError>(x),
        },
{
    let ghost fv = file_view(*f);
    let special = !branch && f.executed.len() == 1 && f.executed[0] == 0 && f.missing.len() == 0
        && f.excluded.len() == 0 && f.summary.num_statements == 0;
    proof {
        if f.executed@.len() == 1 && f.executed@[0] == 0 {
            assert(f.executed@ =~= seq![0usize]);
        }
        if fv.executed == seq![0usize] {
            assert(f.executed@[0] == 0);
        }
    }
    let executed_opt: Option<Vec<usize>> = if special {
        let e: Vec<usize> = Vec::new();
        assert(e@.to_set() =~= Set::<usize>::empty());
        Some(e)
    } else {
        sorted_unique(&f.executed)
    };
    let missing_opt = sorted_unique(&f.missing);
    let excluded_opt = sorted_unique(&f.excluded);
    let (executed, missing, excluded) = match (executed_opt, missing_opt, excluded_opt) {
        (Some(a), Some(b), Some(c)) => (a, b, c),
        _ => return Err(CoveragePyError::InvalidLine),
    };
    if !disjoint_lines(&executed, &missing) || !disjoint_lines(&missing, &excluded) {
        return Err(CoveragePyError::LineContradiction);
    }
    let hit = without(&executed, &excluded);
    let mut lines: Vec<usize> = Vec::new();
    let mut i: usize = 0;
    assert(lines@.to_set() =~= Set::<usize>::empty());
    while i < hit.len()
        invariant
            0 <= i <= hit@.len(),
            ascending(lines@),
            lines@.to_set() == hit@.subrange(0, i as int).to_set(),
        decreases hit@.len() - i,
    {
        insert_line(&mut lines, hit[i]);
        assert(hit@.subrange(0, i + 1).to_set() =~= hit@.subrange(0, i as int).to_set().insert(hit@[i as int])) by {
            broadcast use vstd::seq_lib::group_seq_properties;
            assert(hit@.subrange(0, i + 1) =~= hit@.subrange(0, i as int).push(hit@[i as int]));
        }
        i = i + 1;
    }
    assert(hit@.subrange(0, i as int) =~= hit@);
    let mut j: usize = 0;
    while j < missing.len()
        invariant
            0 <= j <= missing@.len(),
            ascending(lines@),
            lines@.to_set() == hit@.to_set().union(missing@.subrange(0, j as int).to_set()),
        decreases missing@.len() - j,
    {
        insert_line(&mut lines, missing[j]);
        assert(missing@.subrange(0, j + 1).to_set() =~= missing@.subrange(0, j as int).to_set().insert(missing@[j as int])) by {
            broadcast use vstd::seq_lib::group_seq_properties;
            assert(missing@.subrange(0, j + 1) =~= missing@.subrange(0, j as int).push(missing@[j as int]));
        }
        assert(lines@.to_set() =~= hit@.to_set().union(missing@.subrange(0, j + 1).to_set()));
        j = j + 1;
    }
    assert(missing@.subrange(0, j as int) =~= missing@);
    let mut k: usize = 0;
    while k < excluded.len()
        invariant
            0 <= k <= excluded@.len(),
            ascending(lines@),
            lines@.to_set() == hit@.to_set().union(missing@.to_set()).union(excluded@.subrange(0, k as int).to_set()),
        decreases excluded@.len() - k,
    {
        insert_line(&mut lines, excluded[k]);
        assert(excluded@.subrange(0, k + 1).to_set() =~= excluded@.subrange(0, k as int).to_set().insert(excluded@[k as int])) by {
            broadcast use vstd::seq_lib::group_seq_properties;
            assert(excluded@.subrange(0, k + 1) =~= excluded@.subrange(0, k as int).push(excluded@[k as int]));
        }
        assert(lines@.to_set() =~= hit@.to_set().union(missing@.to_set()).union(excluded@.subrange(0, k + 1).to_set()));
        k = k + 1;
    }
    assert(excluded@.subrange(0, k as int) =~= excluded@);
    let maximum: usize = if lines.len() == 0 { 0 } else { lines[lines.len() - 1] };
    proof {
        last_is_max(lines@);
    }
    let eb = arc_vec(&f.executed_branches, branch, maximum)?;
    let mb = arc_vec(&f.missing_branches, branch, maximum)?;
    if arcs_meet(&eb, &mb) {
        return Err(CoveragePyError::BranchContradiction);
    }
    if arc_off_lines(&eb, &excluded, &hit) || arc_off_lines(&mb, &excluded, &lines) {
        return Err(CoveragePyError::BranchLineContradiction);
    }
    Ok(SetsData { hit, missing, excluded, lines, executed_arcs: eb, missing_arcs: mb })
}

} // verus!

verus! {

fn usizes_exec(items: &Vec<Json>) -> (res: Result<Vec<usize>, CoveragePyError>)
    ensures
        match usizes(items@) {
            Some(v) => res matches Ok(x) && x@ == v,
            None => res == Err::<Vec<usize>, CoveragePyError>(CoveragePyError::Malformed),
        },
{
    let mut out: Vec<usize> = Vec::new();
    let mut i: usize = 0;
    assert(items@.subrange(0, 0) =~= Seq::<Json>::empty());
    while i < items.len()
        invariant
            0 <= i <= items@.len(),
            usizes(items@.subrange(0, i as int)) == Some(out@),
        decreases items@.len() - i,
    {
        assert(items@.subrange(0, i + 1).drop_last() =~= items@.subrange(0, i as int));
        match super::diagnostics::read_usize_exec(&items[i]) {
            Some(n) => out.push(n),
            None => {
                proof { usizes_none_persists(items@, i + 1); }
                return Err(CoveragePyError::Malformed);
            },
        }
        i = i + 1;
    }
    assert(items@.subrange(0, i as int) =~= items@);
    Ok(out)
}

proof fn usizes_none_persists(items: Seq<Json>, m: int)
    requires
        0 <= m <= items.len(),
        usizes(items.subrange(0, m)) is None,
    ensures
        usizes(items) is None,
    decreases items.len() - m,
{
    if m < items.len() {
        assert(items.subrange(0, m + 1).drop_last() =~= items.subrange(0, m));
        usizes_none_persists(items, m + 1);
    } else {
        assert(items.subrange(0, m) =~= items);
    }
}

proof fn arcs_none_persists(items: Seq<Json>, m: int)
    requires
        0 <= m <= items.len(),
        arcs_model(items.subrange(0, m)) is None,
    ensures
        arcs_model(items) is None,
    decreases items.len() - m,
{
    if m < items.len() {
        assert(items.subrange(0, m + 1).drop_last() =~= items.subrange(0, m));
        arcs_none_persists(items, m + 1);
    } else {
        assert(items.subrange(0, m) =~= items);
    }
}

fn i64_exec(v: &Json) -> (res: Option<i64>)
    ensures
        res == as_i64(*v),
{
    match v {
        Json::Number(n) => n.signed,
        _ => None,
    }
}

fn arcs_exec(items: &Vec<Json>) -> (res: Result<Vec<(i64, i64)>, CoveragePyError>)
    ensures
        match arcs_model(items@) {
            Some(v) => res matches Ok(x) && x@ == v,
            None => res == Err::<Vec<(i64, i64)>, CoveragePyError>(CoveragePyError::Malformed),
        },
{
    let mut out: Vec<(i64, i64)> = Vec::new();
    let mut i: usize = 0;
    assert(items@.subrange(0, 0) =~= Seq::<Json>::empty());
    while i < items.len()
        invariant
            0 <= i <= items@.len(),
            arcs_model(items@.subrange(0, i as int)) == Some(out@),
        decreases items@.len() - i,
    {
        assert(items@.subrange(0, i + 1).drop_last() =~= items@.subrange(0, i as int));
        let pair = match &items[i] {
            Json::Array(p) => if p.len() == 2 {
                match (i64_exec(&p[0]), i64_exec(&p[1])) {
                    (Some(a), Some(b)) => Some((a, b)),
                    _ => None,
                }
            } else {
                None
            },
            _ => None,
        };
        match pair {
            Some(a) => out.push(a),
            None => {
                proof { arcs_none_persists(items@, i + 1); }
                return Err(CoveragePyError::Malformed);
            },
        }
        i = i + 1;
    }
    assert(items@.subrange(0, i as int) =~= items@);
    Ok(out)
}

fn usizes_field_exec(v: &Json, key: &str) -> (res: Result<Vec<usize>, CoveragePyError>)
    ensures
        match usizes_field(*v, key@) {
            Some(x) => res matches Ok(r) && r@ == x,
            None => res == Err::<Vec<usize>, CoveragePyError>(CoveragePyError::Malformed),
        },
{
    match crate::json::get(v, key) {
        Some(Json::Array(items)) => usizes_exec(items),
        _ => Err(CoveragePyError::Malformed),
    }
}

fn arcs_field_exec(v: &Json, key: &str) -> (res: Result<Option<Vec<(i64, i64)>>, CoveragePyError>)
    ensures
        match arcs_field(*v, key@) {
            Some(x) => res matches Ok(r) && opt_arcs(r) == x,
            None => res == Err::<Option<Vec<(i64, i64)>>, CoveragePyError>(CoveragePyError::Malformed),
        },
{
    match crate::json::get(v, key) {
        None => Ok(None),
        Some(Json::Null) => Ok(None),
        Some(Json::Array(items)) => {
            let a = arcs_exec(items)?;
            Ok(Some(a))
        },
        Some(_) => Err(CoveragePyError::Malformed),
    }
}

fn malformed<T>(r: Result<T, ()>) -> (res: Result<T, CoveragePyError>)
    ensures
        match r {
            Ok(x) => res == Ok::<T, CoveragePyError>(x),
            Err(_) => res == Err::<T, CoveragePyError>(CoveragePyError::Malformed),
        },
{
    match r {
        Ok(x) => Ok(x),
        Err(_) => Err(CoveragePyError::Malformed),
    }
}

fn summary_exec(v: &Json) -> (res: Result<SummaryData, CoveragePyError>)
    ensures
        match summary_model(*v) {
            Some(m) => res matches Ok(s) && summary_view(s) == m,
            None => res == Err::<SummaryData, CoveragePyError>(CoveragePyError::Malformed),
        },
{
    match v {
        Json::Object(_) => {},
        _ => return Err(CoveragePyError::Malformed),
    }
    let covered_lines = malformed(super::diagnostics::usize_exec(v, "covered_lines"))?;
    let num_statements = malformed(super::diagnostics::usize_exec(v, "num_statements"))?;
    let missing_lines = malformed(super::diagnostics::usize_exec(v, "missing_lines"))?;
    let excluded_lines = malformed(super::diagnostics::usize_exec(v, "excluded_lines"))?;
    let num_branches = malformed(super::diagnostics::opt_usize_exec(v, "num_branches"))?;
    let num_partial_branches = malformed(super::diagnostics::opt_usize_exec(v, "num_partial_branches"))?;
    let covered_branches = malformed(super::diagnostics::opt_usize_exec(v, "covered_branches"))?;
    let missing_branches = malformed(super::diagnostics::opt_usize_exec(v, "missing_branches"))?;
    Ok(SummaryData {
        covered_lines,
        num_statements,
        missing_lines,
        excluded_lines,
        num_branches,
        num_partial_branches,
        covered_branches,
        missing_branches,
    })
}

fn file_exec(v: &Json) -> (res: Result<FileData, CoveragePyError>)
    ensures
        match file_model(*v) {
            Some(m) => res matches Ok(f) && file_view(f) == m,
            None => res == Err::<FileData, CoveragePyError>(CoveragePyError::Malformed),
        },
{
    match v {
        Json::Object(_) => {},
        _ => return Err(CoveragePyError::Malformed),
    }
    let executed = usizes_field_exec(v, "executed_lines")?;
    let missing = usizes_field_exec(v, "missing_lines")?;
    let excluded = usizes_field_exec(v, "excluded_lines")?;
    let summary = match crate::json::get(v, "summary") {
        Some(s) => summary_exec(s)?,
        None => return Err(CoveragePyError::Malformed),
    };
    let executed_branches = arcs_field_exec(v, "executed_branches")?;
    let missing_branches = arcs_field_exec(v, "missing_branches")?;
    Ok(FileData { executed, missing, excluded, summary, executed_branches, missing_branches })
}

} // verus!

verus! {

/// The files strictly in increasing name order.
pub open spec fn names_ascending(q: Seq<(Seq<char>, FileModel)>) -> bool {
    forall|i: int, j: int| 0 <= i < j < q.len() ==> super::lcov::text_less((#[trigger] q[i]).0, (#[trigger] q[j]).0)
}

/// Two name-ordered file lists with the same elements are equal.
pub proof fn names_ascending_unique(a: Seq<(Seq<char>, FileModel)>, b: Seq<(Seq<char>, FileModel)>)
    requires
        names_ascending(a),
        names_ascending(b),
        a.to_set() == b.to_set(),
    ensures
        a == b,
    decreases a.len(),
{
    if a.len() == 0 {
        if b.len() > 0 {
            assert(b.to_set().contains(b[0]));
        }
        assert(a =~= b);
    } else {
        assert(a.to_set().contains(a[0]));
        assert(b.to_set().contains(a[0]));
        let j = choose|j: int| 0 <= j < b.len() && b[j] == a[0];
        assert(a.to_set().contains(b[0]));
        let k = choose|k: int| 0 <= k < a.len() && a[k] == b[0];
        if j > 0 && k > 0 {
            assert(super::lcov::text_less(b[0].0, b[j].0));
            assert(super::lcov::text_less(a[0].0, a[k].0));
            super::lcov::text_less_asymmetric(a[0].0, b[0].0);
        }
        if j > 0 && k == 0 {
            assert(super::lcov::text_less(b[0].0, b[j].0));
            super::lcov::text_less_irreflexive(b[0].0);
        }
        if j == 0 && k > 0 {
            assert(super::lcov::text_less(a[0].0, a[k].0));
            super::lcov::text_less_irreflexive(a[0].0);
        }
        assert(a[0] == b[0]);
        let a1 = a.drop_first();
        let b1 = b.drop_first();
        assert forall|x: (Seq<char>, FileModel)| a1.to_set().contains(x) == b1.to_set().contains(x) by {
            if a1.contains(x) {
                let i = choose|i: int| 0 <= i < a1.len() && a1[i] == x;
                assert(a[i + 1] == x);
                assert(super::lcov::text_less(a[0].0, x.0));
                super::lcov::text_less_irreflexive(x.0);
                assert(a.to_set().contains(x));
                assert(b.contains(x)) by {
                    assert(b.to_set().contains(x));
                }
                let t = choose|t: int| 0 <= t < b.len() && b[t] == x;
                assert(t != 0);
                assert(b1[t - 1] == x);
            }
            if b1.contains(x) {
                let i = choose|i: int| 0 <= i < b1.len() && b1[i] == x;
                assert(b[i + 1] == x);
                assert(super::lcov::text_less(b[0].0, x.0));
                super::lcov::text_less_irreflexive(x.0);
                assert(b.to_set().contains(x));
                assert(a.contains(x)) by {
                    assert(a.to_set().contains(x));
                }
                let t = choose|t: int| 0 <= t < a.len() && a[t] == x;
                assert(t != 0);
                assert(a1[t - 1] == x);
            }
        }
        assert(a1.to_set() =~= b1.to_set());
        names_ascending_unique(a1, b1);
        assert(a =~= seq![a[0]] + a1);
        assert(b =~= seq![b[0]] + b1);
    }
}

/// Files as plain values.
spec fn file_views(v: Seq<(String, FileData)>) -> Seq<(Seq<char>, FileModel)> {
    v.map_values(|p: (String, FileData)| (p.0@, file_view(p.1)))
}

/// Order files by name.
fn sort_by_name(files: Vec<(String, FileData)>) -> (res: Vec<(String, FileData)>)
    requires
        distinct_names(file_views(files@)),
    ensures
        names_ascending(file_views(res@)),
        file_views(res@).to_set() == file_views(files@).to_set(),
{
    let ghost all = file_views(files@);
    let n = files.len();
    let mut rest = files;
    let mut out: Vec<(String, FileData)> = Vec::new();
    assert(file_views(out@).to_set() =~= all.subrange(n as int, n as int).to_set());
    assert(rest@ =~= files@.subrange(0, n as int));
    while rest.len() > 0
        invariant
            n == all.len(),
            all == file_views(files@),
            distinct_names(all),
            rest@.len() <= n,
            file_views(rest@) == all.subrange(0, rest@.len() as int),
            names_ascending(file_views(out@)),
            file_views(out@).to_set() == all.subrange(rest@.len() as int, n as int).to_set(),
        decreases rest@.len(),
    {
        let r = rest.len();
        let ghost before_rest = file_views(rest@);
        let item = match rest.pop() {
            Some(x) => x,
            None => return out,
        };
        let ghost iv = (item.0@, file_view(item.1));
        assert(before_rest[r - 1] == iv);
        assert(all[r - 1] == iv);
        assert(file_views(rest@) =~= all.subrange(0, r - 1));
        let name = crate::text::chars_of(item.0.as_str());
        let mut p: usize = 0;
        while p < out.len() && name_before_exec(&out[p].0, &name)
            invariant
                0 <= p <= out@.len(),
                name@ == iv.0,
                forall|k: int| 0 <= k < p ==> super::lcov::text_less((#[trigger] file_views(out@)[k]).0, iv.0),
            decreases out@.len() - p,
        {
            p = p + 1;
        }
        let ghost ov = file_views(out@);
        assert forall|k: int| p <= k < ov.len() implies super::lcov::text_less(iv.0, (#[trigger] ov[k]).0) by {
            assert(all.subrange(r as int, n as int).to_set().contains(ov[k]));
            let t = choose|t: int| 0 <= t < all.subrange(r as int, n as int).len() && all.subrange(r as int, n as int)[t] == ov[k];
            assert(all[r + t] == ov[k]);
            assert(ov[k].0 != iv.0) by {
                assert(all[r - 1].0 != all[r + t].0);
            }
            if k == p {
                if !super::lcov::text_less(iv.0, ov[k].0) {
                    super::lcov::text_less_total(iv.0, ov[k].0);
                }
            } else {
                if p < ov.len() && !super::lcov::text_less(iv.0, ov[p as int].0) {
                    assert(all.subrange(r as int, n as int).to_set().contains(ov[p as int]));
                    let t2 = choose|t2: int| 0 <= t2 < all.subrange(r as int, n as int).len() && all.subrange(r as int, n as int)[t2] == ov[p as int];
                    assert(all[r + t2] == ov[p as int]);
                    assert(all[r - 1].0 != all[r + t2].0);
                    super::lcov::text_less_total(iv.0, ov[p as int].0);
                }
                super::lcov::text_less_transitive(iv.0, ov[p as int].0, ov[k].0);
            }
        }
        out.insert(p, item);
        let ghost nv = file_views(out@);
        assert(nv =~= ov.insert(p as int, iv));
        assert forall|i: int, j: int| 0 <= i < j < nv.len() implies super::lcov::text_less((#[trigger] nv[i]).0, (#[trigger] nv[j]).0) by {
            if j < p {
                assert(nv[i] == ov[i] && nv[j] == ov[j]);
            } else if j == p {
                assert(nv[i] == ov[i]);
            } else if i == p {
                assert(nv[j] == ov[j - 1]);
            } else if i < p {
                assert(nv[i] == ov[i] && nv[j] == ov[j - 1]);
            } else {
                assert(nv[i] == ov[i - 1] && nv[j] == ov[j - 1]);
            }
        }
        assert forall|x: (Seq<char>, FileModel)| nv.to_set().contains(x) == all.subrange(r - 1, n as int).to_set().contains(x) by {
            let sub = all.subrange(r as int, n as int);
            let sub2 = all.subrange(r - 1, n as int);
            if nv.contains(x) {
                let k = choose|k: int| 0 <= k < nv.len() && nv[k] == x;
                if k == p {
                    assert(sub2[0] == x);
                } else {
                    let kk = if k < p { k } else { k - 1 };
                    assert(ov[kk] == x);
                    assert(ov.to_set().contains(x));
                    let t = choose|t: int| 0 <= t < sub.len() && sub[t] == x;
                    assert(sub2[t + 1] == x);
                }
            }
            if sub2.contains(x) {
                let t = choose|t: int| 0 <= t < sub2.len() && sub2[t] == x;
                if t == 0 {
                    assert(nv[p as int] == x);
                } else {
                    assert(sub[t - 1] == x);
                    assert(sub.to_set().contains(x));
                    assert(ov.contains(x)) by {
                        assert(ov.to_set().contains(x));
                    }
                    let k = choose|k: int| 0 <= k < ov.len() && ov[k] == x;
                    if k < p {
                        assert(nv[k] == x);
                    } else {
                        assert(nv[k + 1] == x);
                    }
                }
            }
        }
        assert(nv.to_set() =~= all.subrange(r - 1, n as int).to_set());
    }
    assert(all.subrange(0, n as int) =~= all);
    out
}

fn name_before_exec(name: &String, f: &Vec<char>) -> (res: bool)
    ensures
        res == super::lcov::text_less(name@, f@),
{
    let c = crate::text::chars_of(name.as_str());
    super::lcov::text_lt(&c, f)
}

} // verus!

verus! {

proof fn files_none_persists(members: Seq<(String, Json)>, m: int)
    requires
        0 <= m <= members.len(),
        files_model(members.subrange(0, m)) is None,
    ensures
        files_model(members) is None,
    decreases members.len() - m,
{
    if m < members.len() {
        assert(members.subrange(0, m + 1).drop_last() =~= members.subrange(0, m));
        files_none_persists(members, m + 1);
    } else {
        assert(members.subrange(0, m) =~= members);
    }
}

fn files_exec(members: &Vec<(String, Json)>) -> (res: Result<Vec<(String, FileData)>, CoveragePyError>)
    ensures
        match files_model(members@) {
            Some(fs) => res matches Ok(x) && file_views(x@) == fs,
            None => res == Err::<Vec<(String, FileData)>, CoveragePyError>(CoveragePyError::Malformed),
        },
{
    let mut out: Vec<(String, FileData)> = Vec::new();
    let mut i: usize = 0;
    assert(members@.subrange(0, 0) =~= Seq::<(String, Json)>::empty());
    assert(file_views(out@) =~= Seq::<(Seq<char>, FileModel)>::empty());
    while i < members.len()
        invariant
            0 <= i <= members@.len(),
            files_model(members@.subrange(0, i as int)) == Some(file_views(out@)),
        decreases members@.len() - i,
    {
        assert(members@.subrange(0, i + 1).drop_last() =~= members@.subrange(0, i as int));
        assert(members@.subrange(0, i + 1).last() == members@[i as int]);
        match file_exec(&members[i].1) {
            Ok(f) => {
                let ghost before = file_views(out@);
                let name = members[i].0.clone();
                out.push((name, f));
                assert(file_views(out@) =~= before.push((members@[i as int].0@, file_view(f))));
            },
            Err(e) => {
                proof { files_none_persists(members@, i + 1); }
                return Err(e);
            },
        }
        i = i + 1;
    }
    assert(members@.subrange(0, i as int) =~= members@);
    Ok(out)
}

fn names_distinct(files: &Vec<(String, FileData)>) -> (res: bool)
    ensures
        res == distinct_names(file_views(files@)),
{
    let ghost v = file_views(files@);
    let mut i: usize = 0;
    while i < files.len()
        invariant
            0 <= i <= files@.len(),
            v == file_views(files@),
            forall|a: int, b: int| 0 <= a < i && a < b < v.len() ==> (#[trigger] v[a]).0 != (#[trigger] v[b]).0,
        decreases files@.len() - i,
    {
        let ci = crate::text::chars_of(files[i].0.as_str());
        let mut j: usize = i + 1;
        while j < files.len()
            invariant
                0 <= i < files@.len(),
                i + 1 <= j <= files@.len(),
                v == file_views(files@),
                ci@ == v[i as int].0,
                forall|b: int| i < b < j ==> v[i as int].0 != (#[trigger] v[b]).0,
            decreases files@.len() - j,
        {
            let cj = crate::text::chars_of(files[j].0.as_str());
            if crate::text::chars_equal(&ci, &cj) {
                assert(v[i as int].0 == v[j as int].0);
                return false;
            }
            j = j + 1;
        }
        i = i + 1;
    }
    true
}

fn meta_exec(v: &Json) -> (res: Result<(u32, String, bool), CoveragePyError>)
    ensures
        match meta_model(*v) {
            Some(m) => res matches Ok(x) && m == (x.0, x.1@, x.2),
            None => res == Err::<(u32, String, bool), CoveragePyError>(CoveragePyError::Malformed),
        },
{
    match v {
        Json::Object(_) => {},
        _ => return Err(CoveragePyError::Malformed),
    }
    let format = match crate::json::get(v, "format") {
        Some(Json::Number(n)) => match n.unsigned {
            Some(u) => u,
            None => return Err(CoveragePyError::Malformed),
        },
        _ => return Err(CoveragePyError::Malformed),
    };
    let version = match crate::json::get(v, "version") {
        Some(Json::Str(s)) => s.clone(),
        _ => return Err(CoveragePyError::Malformed),
    };
    let branch = match crate::json::get(v, "branch_coverage") {
        Some(Json::Bool(b)) => *b,
        _ => return Err(CoveragePyError::Malformed),
    };
    if format > u32::MAX as u64 {
        return Err(CoveragePyError::Malformed);
    }
    Ok((format as u32, version, branch))
}

/// The report's shape, read: format, version, branch flag, files (by name) and totals.
fn report_exec(v: &Json) -> (res: Result<(u32, String, bool, Vec<(String, FileData)>, SummaryData), CoveragePyError>)
    ensures
        match report_model(*v) {
            Some(r) => res matches Ok(x) && r.format == x.0 && r.version == x.1@ && r.branch == x.2
                && r.files == file_views(x.3@) && r.totals == summary_view(x.4),
            None => res == Err::<(u32, String, bool, Vec<(String, FileData)>, SummaryData), CoveragePyError>(CoveragePyError::Malformed),
        },
{
    match v {
        Json::Object(_) => {},
        _ => return Err(CoveragePyError::Malformed),
    }
    let meta = match crate::json::get(v, "meta") {
        Some(m) => m,
        None => return Err(CoveragePyError::Malformed),
    };
    let members = match crate::json::get(v, "files") {
        Some(Json::Object(members)) => members,
        _ => return Err(CoveragePyError::Malformed),
    };
    let totals_json = match crate::json::get(v, "totals") {
        Some(t) => t,
        None => return Err(CoveragePyError::Malformed),
    };
    let (format, version, branch) = meta_exec(meta)?;
    let files = files_exec(members)?;
    let totals = summary_exec(totals_json)?;
    if !names_distinct(&files) {
        return Err(CoveragePyError::Malformed);
    }
    Ok((format, version, branch, files, totals))
}

} // verus!

verus! {

proof fn count_bounded<A>(s: Seq<A>, p: spec_fn(A) -> bool)
    ensures
        count_where(s, p) <= s.len(),
    decreases s.len(),
{
    if s.len() > 0 {
        count_bounded(s.drop_last(), p);
    }
}

/// The arcs of `arcs` that start on line `l`.
fn count_on(arcs: &Vec<(usize, i64)>, l: usize) -> (res: usize)
    ensures
        res == count_where(arcs@, starts_at(l)),
        res <= arcs@.len(),
{
    let mut c: usize = 0;
    let mut i: usize = 0;
    assert(arcs@.subrange(0, 0) =~= Seq::<(usize, i64)>::empty());
    while i < arcs.len()
        invariant
            0 <= i <= arcs@.len(),
            c <= i,
            c == count_where(arcs@.subrange(0, i as int), starts_at(l)),
        decreases arcs@.len() - i,
    {
        assert(arcs@.subrange(0, i + 1).drop_last() =~= arcs@.subrange(0, i as int));
        assert(arcs@.subrange(0, i + 1).last() == arcs@[i as int]);
        if arcs[i].0 == l {
            c = c + 1;
        }
        i = i + 1;
    }
    assert(arcs@.subrange(0, i as int) =~= arcs@);
    c
}

/// The arcs of `arcs` that start on a line of `lines`.
fn count_in(arcs: &Vec<(usize, i64)>, lines: &Vec<usize>) -> (res: usize)
    ensures
        res == count_where(arcs@, starts_in(lines@.to_set())),
{
    let mut c: usize = 0;
    let mut i: usize = 0;
    assert(arcs@.subrange(0, 0) =~= Seq::<(usize, i64)>::empty());
    while i < arcs.len()
        invariant
            0 <= i <= arcs@.len(),
            c <= i,
            c == count_where(arcs@.subrange(0, i as int), starts_in(lines@.to_set())),
        decreases arcs@.len() - i,
    {
        assert(arcs@.subrange(0, i + 1).drop_last() =~= arcs@.subrange(0, i as int));
        assert(arcs@.subrange(0, i + 1).last() == arcs@[i as int]);
        if includes(lines, arcs[i].0) {
            c = c + 1;
        }
        i = i + 1;
    }
    assert(arcs@.subrange(0, i as int) =~= arcs@);
    c
}

/// The eight observed counts of a file, widened.
fn observed_exec(e: &SetsData) -> (res: Vec<u128>)
    requires
        sets_inv(*e),
    ensures
        res@.len() == 8,
        forall|i: int| 0 <= i < 8 ==> res@[i] as int == #[trigger] observed(sets_view(*e))[i],
        forall|i: int| 0 <= i < 8 ==> #[trigger] res@[i] <= 2 * (usize::MAX as u128),
{
    proof {
        ascending_no_duplicates(e.hit@);
        ascending_no_duplicates(e.missing@);
        ascending_no_duplicates(e.excluded@);
        e.hit@.unique_seq_to_set();
        e.missing@.unique_seq_to_set();
        e.excluded@.unique_seq_to_set();
        e.executed_arcs@.unique_seq_to_set();
        e.missing_arcs@.unique_seq_to_set();
        count_is_card(e.missing_arcs@, starts_in(e.hit@.to_set()));
    }
    let partial = count_in(&e.missing_arcs, &e.hit);
    let h = e.hit.len() as u128;
    let m = e.missing.len() as u128;
    let x = e.excluded.len() as u128;
    let eb = e.executed_arcs.len() as u128;
    let mb = e.missing_arcs.len() as u128;
    let v = vec![h, h + m, m, x, eb + mb, partial as u128, eb, mb];
    assert(v@[5] as int == observed(sets_view(*e))[5]);
    v
}

fn counter_wrong(v: Option<usize>, observed: u128, branch: bool) -> (res: bool)
    ensures
        res == branch_counter_wrong(v, observed as int, branch),
{
    if branch {
        match v {
            None => true,
            Some(x) => observed > usize::MAX as u128 || x as u128 != observed,
        }
    } else {
        v.is_some()
    }
}

/// Whether a summary contradicts the observed counts.
fn summary_wrong_exec(s: &SummaryData, obs: &Vec<u128>, branch: bool) -> (res: bool)
    requires
        obs@.len() == 8,
    ensures
        res == summary_wrong(summary_view(*s), obs@.map_values(|x: u128| x as int), branch),
{
    let ghost o = obs@.map_values(|x: u128| x as int);
    assert(forall|i: int| 0 <= i < 8 ==> o[i] == obs@[i] as int);
    s.covered_lines as u128 != obs[0] || s.num_statements as u128 != obs[1] || s.missing_lines as u128
        != obs[2] || s.excluded_lines as u128 != obs[3] || counter_wrong(s.num_branches, obs[4], branch)
        || counter_wrong(s.num_partial_branches, obs[5], branch) || counter_wrong(
        s.covered_branches,
        obs[6],
        branch,
    ) || counter_wrong(s.missing_branches, obs[7], branch)
}

} // verus!

verus! {

/// The report as read so far.
struct PyState {
    files: Vec<String>,
    coverage: Vec<super::CoverageLine>,
    totals: Vec<usize>,
    budget: usize,
}

spec fn totals_view(t: Seq<usize>) -> Seq<int> {
    t.map_values(|x: usize| x as int)
}

spec fn py_view(s: PyState) -> PyProgress {
    PyProgress {
        files: super::texts(s.files@),
        records: records_view(s.coverage@),
        totals: totals_view(s.totals@),
        budget: s.budget as int,
    }
}

/// The increasing lines of a file are its sorted lines.
proof fn lines_are_sorted(v: Seq<usize>)
    requires
        ascending(v),
    ensures
        sorted_lines(v.to_set()) == v,
{
    let q = sorted_lines(v.to_set());
    assert(ascending(v) && v.to_set() == v.to_set());
    ascending_unique(v, q);
}

/// Read one file into the report.
#[verifier::loop_isolation(false)]
fn read_file_exec(st: &mut PyState, name: &String, f: &FileData, branch: bool) -> (res: Result<(), CoveragePyError>)
    requires
        old(st).totals@.len() == 8,
    ensures
        match read_file(py_view(*old(st)), name@, file_view(*f), branch) {
            Ok(p) => res is Ok && py_view(*final(st)) == p && final(st).totals@.len() == 8,
            Err(e) => res == Err::<(), CoveragePyError>(e),
        },
{
    let ghost st0 = py_view(*st);
    match super::coverage_budget(&mut st.budget, name.as_str()) {
        Err(e) => return Err(CoveragePyError::Budget(e)),
        Ok(()) => {},
    }
    let ghost left = st.budget as int;
    let e = file_sets_exec(f, branch)?;
    let ghost sv = sets_view(e);
    let obs = observed_exec(&e);
    assert(obs@.map_values(|x: u128| x as int) =~= observed(sv));
    if summary_wrong_exec(&f.summary, &obs, branch) {
        return Err(CoveragePyError::SummaryMismatch);
    }
    let mut sums: Vec<u128> = Vec::new();
    let mut i: usize = 0;
    while i < 8
        invariant
            0 <= i <= 8,
            st.totals@.len() == 8,
            obs@.len() == 8,
            sums@.len() == i,
            forall|k: int| 0 <= k < i ==> #[trigger] sums@[k] as int == st.totals@[k] + obs@[k],
        decreases 8 - i,
    {
        assert(obs@[i as int] <= 2 * (usize::MAX as u128));
        sums.push(st.totals[i] as u128 + obs[i]);
        i = i + 1;
    }
    let ghost totals = add_totals(st0.totals, observed(sv));
    assert forall|k: int| 0 <= k < 8 implies totals[k] == sums@[k] as int by {
        assert(st0.totals[k] == st.totals@[k] as int);
        assert(observed(sv)[k] == obs@[k] as int);
    }
    let mut j: usize = 0;
    while j < 8
        invariant
            0 <= j <= 8,
            sums@.len() == 8,
            forall|k: int| 0 <= k < 8 ==> totals[k] == sums@[k] as int,
            forall|k: int| 0 <= k < j ==> #[trigger] sums@[k] <= usize::MAX as u128,
        decreases 8 - j,
    {
        if sums[j] > usize::MAX as u128 {
            assert(totals[j as int] > usize::MAX);
            return Err(CoveragePyError::Overflow);
        }
        j = j + 1;
    }
    let mut fresh: Vec<usize> = Vec::new();
    let mut k: usize = 0;
    while k < 8
        invariant
            0 <= k <= 8,
            sums@.len() == 8,
            forall|q: int| 0 <= q < 8 ==> #[trigger] sums@[q] <= usize::MAX as u128,
            forall|q: int| 0 <= q < 8 ==> totals[q] == sums@[q] as int,
            fresh@.len() == k,
            forall|q: int| 0 <= q < k ==> #[trigger] fresh@[q] as int == totals[q],
        decreases 8 - k,
    {
        fresh.push(sums[k] as usize);
        k = k + 1;
    }
    st.totals = fresh;
    assert(totals_view(st.totals@) =~= totals);
    proof {
        e.executed_arcs@.unique_seq_to_set();
        e.missing_arcs@.unique_seq_to_set();
        if !branch {
            assert(e.executed_arcs@.to_set().len() == 0);
            assert(e.missing_arcs@.to_set().len() == 0);
        }
        lines_are_sorted(e.lines@);
    }
    assert(e.executed_arcs@.len() + e.missing_arcs@.len() <= usize::MAX);
    let ghost files0 = st.files@;
    let ghost cov0 = st.coverage@;
    st.files.push(name.clone());
    assert(super::texts(st.files@) =~= super::texts(files0).push(name@));
    let ghost order = e.lines@;
    let mut q: usize = 0;
    while q < e.lines.len()
        invariant
            0 <= q <= e.lines@.len(),
            order == e.lines@,
            sv == sets_view(e),
            e.executed_arcs@.no_duplicates(),
            e.missing_arcs@.no_duplicates(),
            e.executed_arcs@.len() + e.missing_arcs@.len() <= usize::MAX,
            super::lcov::charge_n(name@, left, order.len()) == super::lcov::charge_n(name@, st.budget as int, (order.len() - q) as nat),
            records_view(st.coverage@) == records_view(cov0) + file_records(name@, sv, order.subrange(0, q as int)),
            super::texts(st.files@) == st0.files.push(name@),
            totals_view(st.totals@) == add_totals(st0.totals, observed(sv)),
            st.totals@.len() == 8,
        decreases e.lines@.len() - q,
    {
        match super::coverage_budget(&mut st.budget, name.as_str()) {
            Err(err) => return Err(CoveragePyError::Budget(err)),
            Ok(()) => {},
        }
        let l = e.lines[q];
        let covered = count_on(&e.executed_arcs, l);
        let missed = count_on(&e.missing_arcs, l);
        proof {
            count_is_card(e.executed_arcs@, starts_at(l));
            count_is_card(e.missing_arcs@, starts_at(l));
        }
        let hits: u64 = if includes(&e.hit, l) { 1 } else { 0 };
        let excluded = includes(&e.excluded, l);
        let ghost before = st.coverage@;
        st.coverage.push(super::CoverageLine {
            file: name.clone(),
            line: l,
            hits,
            branches_found: covered + missed,
            branches_hit: covered,
            excluded,
        });
        assert(records_view(st.coverage@) =~= records_view(before).push(record_of(name@, sv, l)));
        assert(file_records(name@, sv, order.subrange(0, q + 1)) =~= file_records(name@, sv, order.subrange(0, q as int)).push(record_of(name@, sv, l)));
        q = q + 1;
    }
    assert(order.subrange(0, q as int) =~= order);
    Ok(())
}

} // verus!

verus! {

proof fn py_scan_error_persists(files: Seq<(Seq<char>, FileModel)>, branch: bool, a: int)
    requires
        0 <= a <= files.len(),
        py_scan(files.subrange(0, a), branch) is Err,
    ensures
        py_scan(files, branch) == py_scan(files.subrange(0, a), branch),
    decreases files.len() - a,
{
    if a < files.len() {
        assert(files.subrange(0, a + 1).drop_last() =~= files.subrange(0, a));
        py_scan_error_persists(files, branch, a + 1);
    } else {
        assert(files.subrange(0, a) =~= files);
    }
}

/// The JSON description of the producer.
fn producer(format: u32, version: String, branch: bool) -> (res: Json)
    ensures
        forall|r: ReportModel| r.format == format && r.version == version@ && r.branch == branch ==> producer_is(res, r),
{
    let number = crate::json::JsonNumber {
        unsigned: Some(format as u64),
        signed: Some(format as i64),
        text: crate::text::decimal_string(format as u64),
    };
    let members = vec![
        (String::from_str("branch_coverage"), Json::Bool(branch)),
        (String::from_str("format"), Json::Number(number)),
        (String::from_str("tool"), Json::Str(String::from_str("coverage.py"))),
        (String::from_str("version"), Json::Str(version)),
    ];
    Json::Object(members)
}

/// Read a coverage.py document: every file's lines and arcs must agree with its
/// summary, and the files' counts must add up to the totals.
pub fn coverage_py(v: &Json) -> (res: Result<super::Data, CoveragePyError>)
    ensures
        coverage_py_outcome(*v, res),
{
    let (format, version, branch, files, totals) = report_exec(v)?;
    let ghost r = report_model(*v)->Some_0;
    let vc = crate::text::chars_of(version.as_str());
    if !(format == 2 || format == 3) || crate::text::is_blank(&vc) || crate::text::contains_char(&vc, '\0') {
        return Err(CoveragePyError::Unsupported);
    }
    if files.len() == 0 {
        return Err(CoveragePyError::NoSources);
    }
    let sorted = sort_by_name(files);
    let ghost q = file_views(sorted@);
    proof {
        assert(names_ascending(q) && q.to_set() == r.files.to_set());
        let c = by_name(r.files);
        names_ascending_unique(q, c);
    }
    let mut zeros: Vec<usize> = Vec::new();
    while zeros.len() < 8
        invariant
            zeros@.len() <= 8,
            forall|k: int| 0 <= k < zeros@.len() ==> zeros@[k] == 0,
        decreases 8 - zeros@.len(),
    {
        zeros.push(0);
    }
    let mut st = PyState { files: Vec::new(), coverage: Vec::new(), totals: zeros, budget: COVERAGE_BUDGET };
    assert(py_view(st) =~= PyProgress { files: seq![], records: seq![], totals: Seq::new(8, |i: int| 0), budget: COVERAGE_BUDGET as int }) by {
        assert(super::texts(st.files@) =~= Seq::<Seq<char>>::empty());
        assert(records_view(st.coverage@) =~= Seq::<(Seq<char>, usize, u64, usize, usize, bool)>::empty());
        assert(totals_view(st.totals@) =~= Seq::new(8, |i: int| 0));
    }
    assert(q.subrange(0, 0) =~= Seq::<(Seq<char>, FileModel)>::empty());
    let mut i: usize = 0;
    while i < sorted.len()
        invariant
            0 <= i <= sorted@.len(),
            q == file_views(sorted@),
            report_model(*v) == Some(r),
            by_name(r.files) == q,
            r.format == 2 || r.format == 3,
            !crate::text::blank(r.version),
            !r.version.contains('\0'),
            r.files.len() > 0,
            r.branch == branch,
            st.totals@.len() == 8,
            py_scan(q.subrange(0, i as int), branch) == Ok::<PyProgress, CoveragePyError>(py_view(st)),
        decreases sorted@.len() - i,
    {
        assert(q.subrange(0, i + 1).drop_last() =~= q.subrange(0, i as int));
        assert(q.subrange(0, i + 1).last() == (sorted@[i as int].0@, file_view(sorted@[i as int].1)));
        match read_file_exec(&mut st, &sorted[i].0, &sorted[i].1, branch) {
            Err(e) => {
                proof { py_scan_error_persists(q, branch, i + 1); }
                return Err(e);
            },
            Ok(()) => {},
        }
        i = i + 1;
    }
    assert(q.subrange(0, i as int) =~= q);
    let mut wide: Vec<u128> = Vec::new();
    let mut k: usize = 0;
    while k < 8
        invariant
            0 <= k <= 8,
            st.totals@.len() == 8,
            wide@.len() == k,
            forall|t: int| 0 <= t < k ==> #[trigger] wide@[t] == st.totals@[t] as u128,
        decreases 8 - k,
    {
        wide.push(st.totals[k] as u128);
        k = k + 1;
    }
    assert(wide@.map_values(|x: u128| x as int) =~= totals_view(st.totals@));
    if summary_wrong_exec(&totals, &wide, branch) {
        return Err(CoveragePyError::SummaryMismatch);
    }
    let p = producer(format, version, branch);
    Ok(super::Data {
        issues: Vec::new(),
        tests: None,
        coverage: st.coverage,
        coverage_files: st.files,
        coverage_roots: Vec::new(),
        coverage_producer: Some(p),
        branch_coverage: branch,
        affected_files: None,
        sarif_runs: Vec::new(),
    })
}

/// Read coverage.py JSON text.
pub fn parse(text: &str) -> (res: Result<super::Data, CoveragePyError>)
    ensures
        match crate::json::spec_parse_json(text@) {
            None => res == Err::<super::Data, CoveragePyError>(CoveragePyError::Malformed),
            Some(v) => coverage_py_outcome(v, res),
        },
{
    match crate::json::parse_json(text) {
        None => Err(CoveragePyError::Malformed),
        Some(v) => coverage_py(&v),
    }
}

} // verus!
