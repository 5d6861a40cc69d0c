//! The generic diagnostics format: a JSON document with exactly the fields of a
//! normalized report, nothing else.

use vstd::prelude::*;
use crate::json::{as_bool, as_str, as_u64, member, Json};
use super::{CoverageLine, Data, Issue, IssueLocation, SarifRun, Tests};

verus! {

/// An issue location as plain values.
pub struct LocationModel {
    pub file: Option<Seq<char>>,
    pub line: Option<usize>,
    pub end_line: Option<usize>,
    pub symbol: Option<Seq<char>>,
}

/// A diagnostic as plain values.
pub struct IssueModel {
    pub rule: Seq<char>,
    pub file: Option<Seq<char>>,
    pub line: Option<usize>,
    pub message: Seq<char>,
    pub symbol: Option<Seq<char>>,
    pub tool: Option<Seq<char>>,
    pub locations: Seq<LocationModel>,
}

/// A SARIF run summary as plain values.
pub struct RunModel {
    pub tool: Seq<char>,
    pub version: Option<Seq<char>>,
    pub results: usize,
    pub violations: usize,
    pub non_violations: usize,
    pub suppressed_results: usize,
}

/// A normalized report as plain values.
pub struct DataModel {
    pub issues: Seq<IssueModel>,
    pub tests: Option<(usize, usize, usize)>,
    pub coverage: Seq<(Seq<char>, usize, u64, usize, usize, bool)>,
    pub coverage_files: Seq<Seq<char>>,
    pub coverage_roots: Seq<Seq<char>>,
    pub coverage_producer: Option<Json>,
    pub branch_coverage: bool,
    pub affected_files: Option<Seq<Seq<char>>>,
    pub sarif_runs: Seq<RunModel>,
}

/// An optional string as plain text.
pub open spec fn opt_view(s: Option<String>) -> Option<Seq<char>> {
    match s {
        Some(x) => Some(x@),
        None => None,
    }
}

/// A location as plain values.
pub open spec fn location_view(l: IssueLocation) -> LocationModel {
    LocationModel { file: opt_view(l.file), line: l.line, end_line: l.end_line, symbol: opt_view(l.symbol) }
}

/// A diagnostic as plain values.
pub open spec fn issue_view(i: Issue) -> IssueModel {
    IssueModel {
        rule: i.rule@,
        file: opt_view(i.file),
        line: i.line,
        message: i.message@,
        symbol: opt_view(i.symbol),
        tool: opt_view(i.tool),
        locations: i.locations@.map_values(|l: IssueLocation| location_view(l)),
    }
}

/// A coverage record as plain values.
pub open spec fn line_view(c: CoverageLine) -> (Seq<char>, usize, u64, usize, usize, bool) {
    (c.file@, c.line, c.hits, c.branches_found, c.branches_hit, c.excluded)
}

/// A run summary as plain values.
pub open spec fn run_view(r: SarifRun) -> RunModel {
    RunModel {
        tool: r.tool@,
        version: opt_view(r.version),
        results: r.results,
        violations: r.violations,
        non_violations: r.non_violations,
        suppressed_results: r.suppressed_results,
    }
}

/// The texts of an optional list of strings.
pub open spec fn opt_texts(v: Option<Vec<String>>) -> Option<Seq<Seq<char>>> {
    match v {
        Some(x) => Some(super::texts(x@)),
        None => None,
    }
}

/// A normalized report as plain values.
pub open spec fn data_view(d: Data) -> DataModel {
    DataModel {
        issues: d.issues@.map_values(|i: Issue| issue_view(i)),
        tests: match d.tests {
            Some(t) => Some((t.executed, t.failures, t.skipped)),
            None => None,
        },
        coverage: d.coverage@.map_values(|c: CoverageLine| line_view(c)),
        coverage_files: super::texts(d.coverage_files@),
        coverage_roots: super::texts(d.coverage_roots@),
        coverage_producer: d.coverage_producer,
        branch_coverage: d.branch_coverage,
        affected_files: opt_texts(d.affected_files),
        sarif_runs: d.sarif_runs@.map_values(|r: SarifRun| run_view(r)),
    }
}

} // verus!

verus! {

/// `v` is an object whose member names are all among `allowed`.
pub open spec fn keys_within(v: Json, allowed: Seq<Seq<char>>) -> bool {
    &&& v is Object
    &&& forall|i: int| 0 <= i < v->Object_0@.len() ==> allowed.contains(#[trigger] v->Object_0@[i].0@)
}

/// A JSON number read as a `usize`.
pub open spec fn read_usize(v: Json) -> Option<usize> {
    match as_u64(v) {
        Some(n) => if n <= usize::MAX {
            Some(n as usize)
        } else {
            None
        },
        None => None,
    }
}

/// A required `usize` member.
pub open spec fn usize_field(v: Json, key: Seq<char>) -> Option<usize> {
    match member(v, key) {
        Some(x) => read_usize(x),
        None => None,
    }
}

/// A required `u64` member.
pub open spec fn u64_field(v: Json, key: Seq<char>) -> Option<u64> {
    match member(v, key) {
        Some(x) => as_u64(x),
        None => None,
    }
}

/// A required string member.
pub open spec fn text_field(v: Json, key: Seq<char>) -> Option<Seq<char>> {
    match member(v, key) {
        Some(x) => as_str(x),
        None => None,
    }
}

/// An optional `usize` member: absent or `null` reads as `None`; `None` outside
/// means invalid.
pub open spec fn opt_usize_field(v: Json, key: Seq<char>) -> Option<Option<usize>> {
    match member(v, key) {
        None => Some(None),
        Some(Json::Null) => Some(None),
        Some(x) => match read_usize(x) {
            Some(n) => Some(Some(n)),
            None => None,
        },
    }
}

/// An optional string member: absent or `null` reads as `None`.
pub open spec fn opt_text_field(v: Json, key: Seq<char>) -> Option<Option<Seq<char>>> {
    match member(v, key) {
        None => Some(None),
        Some(Json::Null) => Some(None),
        Some(x) => match as_str(x) {
            Some(s) => Some(Some(s)),
            None => None,
        },
    }
}

/// A boolean member that defaults to `false` when absent.
pub open spec fn flag_field(v: Json, key: Seq<char>) -> Option<bool> {
    match member(v, key) {
        None => Some(false),
        Some(x) => as_bool(x),
    }
}

/// The elements of an array member that defaults to empty when absent.
pub open spec fn list_field(v: Json, key: Seq<char>) -> Option<Seq<Json>> {
    match member(v, key) {
        None => Some(seq![]),
        Some(Json::Array(items)) => Some(items@),
        Some(_) => None,
    }
}

/// A list of strings.
pub open spec fn texts_model(items: Seq<Json>) -> Option<Seq<Seq<char>>>
    decreases items.len(),
{
    if items.len() == 0 {
        Some(seq![])
    } else {
        match (texts_model(items.drop_last()), as_str(items.last())) {
            (Some(rest), Some(s)) => Some(rest.push(s)),
            _ => None,
        }
    }
}

/// One location object.
pub open spec fn location_model(v: Json) -> Option<LocationModel> {
    if !keys_within(v, seq!["file"@, "line"@, "end_line"@, "symbol"@]) {
        None
    } else {
        match (opt_text_field(v, "file"@), opt_usize_field(v, "line"@), opt_usize_field(v, "end_line"@), opt_text_field(v, "symbol"@)) {
            (Some(file), Some(line), Some(end_line), Some(symbol)) => Some(LocationModel { file, line, end_line, symbol }),
            _ => None,
        }
    }
}

/// A list of location objects.
pub open spec fn locations_model(items: Seq<Json>) -> Option<Seq<LocationModel>>
    decreases items.len(),
{
    if items.len() == 0 {
        Some(seq![])
    } else {
        match (locations_model(items.drop_last()), location_model(items.last())) {
            (Some(rest), Some(l)) => Some(rest.push(l)),
            _ => None,
        }
    }
}

/// The member names of a diagnostic.
pub open spec fn issue_keys() -> Seq<Seq<char>> {
    seq!["rule"@, "file"@, "line"@, "message"@, "symbol"@, "tool"@, "locations"@]
}

/// One diagnostic object.
pub open spec fn issue_model(v: Json) -> Option<IssueModel> {
    if !keys_within(v, issue_keys()) {
        None
    } else {
        match (text_field(v, "rule"@), opt_text_field(v, "file"@), opt_usize_field(v, "line"@), text_field(v, "message"@)) {
            (Some(rule), Some(file), Some(line), Some(message)) => match (opt_text_field(v, "symbol"@), opt_text_field(v, "tool"@), list_field(v, "locations"@)) {
                (Some(symbol), Some(tool), Some(items)) => match locations_model(items) {
                    Some(locations) => Some(IssueModel { rule, file, line, message, symbol, tool, locations }),
                    None => None,
                },
                _ => None,
            },
            _ => None,
        }
    }
}

/// A list of diagnostic objects.
pub open spec fn issues_model(items: Seq<Json>) -> Option<Seq<IssueModel>>
    decreases items.len(),
{
    if items.len() == 0 {
        Some(seq![])
    } else {
        match (issues_model(items.drop_last()), issue_model(items.last())) {
            (Some(rest), Some(i)) => Some(rest.push(i)),
            _ => None,
        }
    }
}

/// A test count object.
pub open spec fn tests_model(v: Json) -> Option<(usize, usize, usize)> {
    if !keys_within(v, seq!["executed"@, "failures"@, "skipped"@]) {
        None
    } else {
        match (usize_field(v, "executed"@), usize_field(v, "failures"@), usize_field(v, "skipped"@)) {
            (Some(e), Some(f), Some(s)) => Some((e, f, s)),
            _ => None,
        }
    }
}

/// The optional test counts: absent or `null` reads as `None`.
pub open spec fn tests_field(v: Json) -> Option<Option<(usize, usize, usize)>> {
    match member(v, "tests"@) {
        None => Some(None),
        Some(Json::Null) => Some(None),
        Some(t) => match tests_model(t) {
            Some(m) => Some(Some(m)),
            None => None,
        },
    }
}

/// One coverage record object.
pub open spec fn line_model(v: Json) -> Option<(Seq<char>, usize, u64, usize, usize, bool)> {
    if !keys_within(v, seq!["file"@, "line"@, "hits"@, "branches_found"@, "branches_hit"@, "excluded"@]) {
        None
    } else {
        match (text_field(v, "file"@), usize_field(v, "line"@), u64_field(v, "hits"@)) {
            (Some(file), Some(line), Some(hits)) => match (usize_field(v, "branches_found"@), usize_field(v, "branches_hit"@), flag_field(v, "excluded"@)) {
                (Some(found), Some(hit), Some(excluded)) => Some((file, line, hits, found, hit, excluded)),
                _ => None,
            },
            _ => None,
        }
    }
}

/// A list of coverage record objects.
pub open spec fn lines_model(items: Seq<Json>) -> Option<Seq<(Seq<char>, usize, u64, usize, usize, bool)>>
    decreases items.len(),
{
    if items.len() == 0 {
        Some(seq![])
    } else {
        match (lines_model(items.drop_last()), line_model(items.last())) {
            (Some(rest), Some(l)) => Some(rest.push(l)),
            _ => None,
        }
    }
}

/// One run summary object.
pub open spec fn run_model(v: Json) -> Option<RunModel> {
    if !keys_within(v, seq!["tool"@, "version"@, "results"@, "violations"@, "non_violations"@, "suppressed_results"@]) {
        None
    } else {
        match (text_field(v, "tool"@), opt_text_field(v, "version"@), usize_field(v, "results"@)) {
            (Some(tool), Some(version), Some(results)) => match (usize_field(v, "violations"@), usize_field(v, "non_violations"@), usize_field(v, "suppressed_results"@)) {
                (Some(violations), Some(non_violations), Some(suppressed_results)) => Some(RunModel { tool, version, results, violations, non_violations, suppressed_results }),
                _ => None,
            },
            _ => None,
        }
    }
}

/// A list of run summary objects.
pub open spec fn runs_model(items: Seq<Json>) -> Option<Seq<RunModel>>
    decreases items.len(),
{
    if items.len() == 0 {
        Some(seq![])
    } else {
        match (runs_model(items.drop_last()), run_model(items.last())) {
            (Some(rest), Some(r)) => Some(rest.push(r)),
            _ => None,
        }
    }
}

/// A string list member that defaults to empty when absent.
pub open spec fn texts_field(v: Json, key: Seq<char>) -> Option<Seq<Seq<char>>> {
    match list_field(v, key) {
        Some(items) => texts_model(items),
        None => None,
    }
}

/// The optional affected-file list: absent or `null` reads as `None`.
pub open spec fn affected_field(v: Json) -> Option<Option<Seq<Seq<char>>>> {
    match member(v, "affected_files"@) {
        None => Some(None),
        Some(Json::Null) => Some(None),
        Some(Json::Array(items)) => match texts_model(items@) {
            Some(t) => Some(Some(t)),
            None => None,
        },
        Some(_) => None,
    }
}

/// The optional coverage producer: absent or `null` reads as `None`, anything else is kept.
pub open spec fn producer_field(v: Json) -> Option<Json> {
    match member(v, "coverage_producer"@) {
        None => None,
        Some(Json::Null) => None,
        Some(p) => Some(p),
    }
}

/// The member names of a report.
pub open spec fn data_keys() -> Seq<Seq<char>> {
    seq![
        "issues"@,
        "tests"@,
        "coverage"@,
        "coverage_files"@,
        "coverage_roots"@,
        "coverage_producer"@,
        "branch_coverage"@,
        "affected_files"@,
        "sarif_runs"@,
    ]
}

/// The report a diagnostics document describes: an object with exactly the report's
/// fields (`issues` required, the rest defaulted when absent), each of its type.
pub open spec fn data_model(v: Json) -> Option<DataModel> {
    if !keys_within(v, data_keys()) {
        None
    } else {
        match member(v, "issues"@) {
            Some(Json::Array(items)) => match (issues_model(items@), tests_field(v), list_field(v, "coverage"@)) {
                (Some(issues), Some(tests), Some(cov)) => match (lines_model(cov), texts_field(v, "coverage_files"@), texts_field(v, "coverage_roots"@)) {
                    (Some(coverage), Some(coverage_files), Some(coverage_roots)) => match (flag_field(v, "branch_coverage"@), affected_field(v), list_field(v, "sarif_runs"@)) {
                        (Some(branch_coverage), Some(affected_files), Some(runs)) => match runs_model(runs) {
                            Some(sarif_runs) => Some(DataModel {
                                issues,
                                tests,
                                coverage,
                                coverage_files,
                                coverage_roots,
                                coverage_producer: producer_field(v),
                                branch_coverage,
                                affected_files,
                                sarif_runs,
                            }),
                            None => None,
                        },
                        _ => None,
                    },
                    _ => None,
                },
                _ => None,
            },
            _ => None,
        }
    }
}

} // verus!

verus! {

/// Whether every member name of `v` is among `allowed` (and `v` is an object).
fn keys_ok(v: &Json, allowed: &Vec<Vec<char>>) -> (res: bool)
    ensures
        res == keys_within(*v, crate::text::views(allowed@)),
{
    let ghost a = crate::text::views(allowed@);
    match v {
        Json::Object(members) => {
            let mut i: usize = 0;
            while i < members.len()
                invariant
                    0 <= i <= members@.len(),
                    *v == Json::Object(*members),
                    a == crate::text::views(allowed@),
                    forall|k: int| 0 <= k < i ==> a.contains(#[trigger] members@[k].0@),
                decreases members@.len() - i,
            {
                let name = crate::text::chars_of(members[i].0.as_str());
                let mut found = false;
                let mut q: usize = 0;
                while q < allowed.len()
                    invariant
                        0 <= q <= allowed@.len(),
                        a == crate::text::views(allowed@),
                        found ==> a.contains(name@),
                        !found ==> forall|t: int| 0 <= t < q ==> a[t] != name@,
                    decreases allowed@.len() - q,
                {
                    if crate::text::chars_equal(&allowed[q], &name) {
                        assert(a[q as int] == name@);
                        found = true;
                    }
                    q = q + 1;
                }
                if !found {
                    assert(name@ == members@[i as int].0@);
                    assert(!a.contains(members@[i as int].0@));
                    assert(v->Object_0@ == members@);
                    assert(!a.contains(v->Object_0@[i as int].0@));
                    return false;
                }
                i = i + 1;
            }
            true
        },
        _ => false,
    }
}

} // verus!

verus! {

pub(crate) fn read_usize_exec(v: &Json) -> (res: Option<usize>)
    ensures
        res == read_usize(*v),
{
    match v {
        Json::Number(n) => match n.unsigned {
            Some(u) => if u <= usize::MAX as u64 {
                Some(u as usize)
            } else {
                None
            },
            None => None,
        },
        _ => None,
    }
}

pub(crate) fn usize_exec(v: &Json, key: &str) -> (res: Result<usize, ()>)
    ensures
        match usize_field(*v, key@) {
            Some(n) => res == Ok::<usize, ()>(n),
            None => res is Err,
        },
{
    match crate::json::get(v, key) {
        Some(x) => match read_usize_exec(x) {
            Some(n) => Ok(n),
            None => Err(()),
        },
        None => Err(()),
    }
}

fn u64_exec(v: &Json, key: &str) -> (res: Result<u64, ()>)
    ensures
        match u64_field(*v, key@) {
            Some(n) => res == Ok::<u64, ()>(n),
            None => res is Err,
        },
{
    match crate::json::get(v, key) {
        Some(Json::Number(n)) => match n.unsigned {
            Some(u) => Ok(u),
            None => Err(()),
        },
        _ => Err(()),
    }
}

fn text_exec(v: &Json, key: &str) -> (res: Result<String, ()>)
    ensures
        match text_field(*v, key@) {
            Some(s) => res matches Ok(x) && x@ == s,
            None => res is Err,
        },
{
    match crate::json::get(v, key) {
        Some(Json::Str(s)) => Ok(s.clone()),
        _ => Err(()),
    }
}

pub(crate) fn opt_usize_exec(v: &Json, key: &str) -> (res: Result<Option<usize>, ()>)
    ensures
        match opt_usize_field(*v, key@) {
            Some(n) => res == Ok::<Option<usize>, ()>(n),
            None => res is Err,
        },
{
    match crate::json::get(v, key) {
        None => Ok(None),
        Some(Json::Null) => Ok(None),
        Some(x) => match read_usize_exec(x) {
            Some(n) => Ok(Some(n)),
            None => Err(()),
        },
    }
}

fn opt_text_exec(v: &Json, key: &str) -> (res: Result<Option<String>, ()>)
    ensures
        match opt_text_field(*v, key@) {
            Some(s) => res matches Ok(x) && opt_view(x) == s,
            None => res is Err,
        },
{
    match crate::json::get(v, key) {
        None => Ok(None),
        Some(Json::Null) => Ok(None),
        Some(Json::Str(s)) => Ok(Some(s.clone())),
        Some(_) => Err(()),
    }
}

fn flag_exec(v: &Json, key: &str) -> (res: Result<bool, ()>)
    ensures
        match flag_field(*v, key@) {
            Some(b) => res == Ok::<bool, ()>(b),
            None => res is Err,
        },
{
    match crate::json::get(v, key) {
        None => Ok(false),
        Some(Json::Bool(b)) => Ok(*b),
        Some(_) => Err(()),
    }
}

/// The array member `key`, empty when absent.
fn list_exec<'a>(v: &'a Json, key: &str, empty: &'a Vec<Json>) -> (res: Result<&'a Vec<Json>, ()>)
    requires
        empty@.len() == 0,
    ensures
        match list_field(*v, key@) {
            Some(items) => res matches Ok(x) && x@ == items,
            None => res is Err,
        },
{
    match crate::json::get(v, key) {
        None => Ok(empty),
        Some(Json::Array(items)) => Ok(items),
        Some(_) => Err(()),
    }
}

fn texts_exec(items: &Vec<Json>) -> (res: Result<Vec<String>, ()>)
    ensures
        match texts_model(items@) {
            Some(t) => res matches Ok(x) && super::texts(x@) == t,
            None => res is Err,
        },
{
    let mut out: Vec<String> = Vec::new();
    let mut i: usize = 0;
    assert(items@.subrange(0, 0) =~= Seq::<Json>::empty());
    assert(super::texts(out@) =~= Seq::<Seq<char>>::empty());
    while i < items.len()
        invariant
            0 <= i <= items@.len(),
            texts_model(items@.subrange(0, i as int)) == Some(super::texts(out@)),
        decreases items@.len() - i,
    {
        assert(items@.subrange(0, i + 1).drop_last() =~= items@.subrange(0, i as int));
        match &items[i] {
            Json::Str(s) => {
                let ghost before = out@;
                out.push(s.clone());
                assert(super::texts(out@) =~= super::texts(before).push(s@));
            },
            _ => {
                proof {
                    texts_model_error_persists(items@, i + 1);
                }
                return Err(());
            },
        }
        i = i + 1;
    }
    assert(items@.subrange(0, i as int) =~= items@);
    Ok(out)
}

proof fn texts_model_error_persists(items: Seq<Json>, m: int)
    requires
        0 <= m <= items.len(),
        texts_model(items.subrange(0, m)) is None,
    ensures
        texts_model(items) is None,
    decreases items.len() - m,
{
    if m < items.len() {
        assert(items.subrange(0, m + 1).drop_last() =~= items.subrange(0, m));
        texts_model_error_persists(items, m + 1);
    } else {
        assert(items.subrange(0, m) =~= items);
    }
}

} // verus!

verus! {

fn location_keys() -> (res: Vec<Vec<char>>)
    ensures
        crate::text::views(res@) == seq!["file"@, "line"@, "end_line"@, "symbol"@],
{
    let v = vec![
        crate::text::chars_of("file"),
        crate::text::chars_of("line"),
        crate::text::chars_of("end_line"),
        crate::text::chars_of("symbol"),
    ];
    assert(crate::text::views(v@) =~= seq!["file"@, "line"@, "end_line"@, "symbol"@]);
    v
}

fn location_exec(v: &Json) -> (res: Result<IssueLocation, ()>)
    ensures
        match location_model(*v) {
            Some(m) => res matches Ok(x) && location_view(x) == m,
            None => res is Err,
        },
{
    let keys = location_keys();
    if !keys_ok(v, &keys) {
        return Err(());
    }
    let file = opt_text_exec(v, "file")?;
    let line = opt_usize_exec(v, "line")?;
    let end_line = opt_usize_exec(v, "end_line")?;
    let symbol = opt_text_exec(v, "symbol")?;
    Ok(IssueLocation { file, line, end_line, symbol })
}

proof fn locations_model_none_persists(items: Seq<Json>, m: int)
    requires
        0 <= m <= items.len(),
        locations_model(items.subrange(0, m)) is None,
    ensures
        locations_model(items) is None,
    decreases items.len() - m,
{
    if m < items.len() {
        assert(items.subrange(0, m + 1).drop_last() =~= items.subrange(0, m));
        locations_model_none_persists(items, m + 1);
    } else {
        assert(items.subrange(0, m) =~= items);
    }
}

fn locations_exec(items: &Vec<Json>) -> (res: Result<Vec<IssueLocation>, ()>)
    ensures
        match locations_model(items@) {
            Some(m) => res matches Ok(x) && x@.map_values(|l: IssueLocation| location_view(l)) == m,
            None => res is Err,
        },
{
    let mut out: Vec<IssueLocation> = Vec::new();
    let mut i: usize = 0;
    assert(items@.subrange(0, 0) =~= Seq::<Json>::empty());
    assert(out@.map_values(|l: IssueLocation| location_view(l)) =~= Seq::<LocationModel>::empty());
    while i < items.len()
        invariant
            0 <= i <= items@.len(),
            locations_model(items@.subrange(0, i as int)) == Some(out@.map_values(|l: IssueLocation| location_view(l))),
        decreases items@.len() - i,
    {
        assert(items@.subrange(0, i + 1).drop_last() =~= items@.subrange(0, i as int));
        match location_exec(&items[i]) {
            Ok(l) => {
                let ghost before = out@;
                out.push(l);
                assert(out@.map_values(|l: IssueLocation| location_view(l)) =~= before.map_values(
                    |l: IssueLocation| location_view(l),
                ).push(location_view(l)));
            },
            Err(()) => {
                proof {
                    locations_model_none_persists(items@, i + 1);
                }
                return Err(());
            },
        }
        i = i + 1;
    }
    assert(items@.subrange(0, i as int) =~= items@);
    Ok(out)
}

fn issue_keys_exec() -> (res: Vec<Vec<char>>)
    ensures
        crate::text::views(res@) == issue_keys(),
{
    let v = vec![
        crate::text::chars_of("rule"),
        crate::text::chars_of("file"),
        crate::text::chars_of("line"),
        crate::text::chars_of("message"),
        crate::text::chars_of("symbol"),
        crate::text::chars_of("tool"),
        crate::text::chars_of("locations"),
    ];
    assert(crate::text::views(v@) =~= issue_keys());
    v
}

fn issue_exec(v: &Json) -> (res: Result<Issue, ()>)
    ensures
        match issue_model(*v) {
            Some(m) => res matches Ok(x) && issue_view(x) == m,
            None => res is Err,
        },
{
    let keys = issue_keys_exec();
    if !keys_ok(v, &keys) {
        return Err(());
    }
    let rule = text_exec(v, "rule")?;
    let file = opt_text_exec(v, "file")?;
    let line = opt_usize_exec(v, "line")?;
    let message = text_exec(v, "message")?;
    let symbol = opt_text_exec(v, "symbol")?;
    let tool = opt_text_exec(v, "tool")?;
    let empty: Vec<Json> = Vec::new();
    let items = list_exec(v, "locations", &empty)?;
    let locations = locations_exec(items)?;
    Ok(Issue { rule, file, line, message, symbol, tool, locations })
}

proof fn issues_model_none_persists(items: Seq<Json>, m: int)
    requires
        0 <= m <= items.len(),
        issues_model(items.subrange(0, m)) is None,
    ensures
        issues_model(items) is None,
    decreases items.len() - m,
{
    if m < items.len() {
        assert(items.subrange(0, m + 1).drop_last() =~= items.subrange(0, m));
        issues_model_none_persists(items, m + 1);
    } else {
        assert(items.subrange(0, m) =~= items);
    }
}

fn issues_exec(items: &Vec<Json>) -> (res: Result<Vec<Issue>, ()>)
    ensures
        match issues_model(items@) {
            Some(m) => res matches Ok(x) && x@.map_values(|i: Issue| issue_view(i)) == m,
            None => res is Err,
        },
{
    let mut out: Vec<Issue> = Vec::new();
    let mut i: usize = 0;
    assert(items@.subrange(0, 0) =~= Seq::<Json>::empty());
    assert(out@.map_values(|i: Issue| issue_view(i)) =~= Seq::<IssueModel>::empty());
    while i < items.len()
        invariant
            0 <= i <= items@.len(),
            issues_model(items@.subrange(0, i as int)) == Some(out@.map_values(|i: Issue| issue_view(i))),
        decreases items@.len() - i,
    {
        assert(items@.subrange(0, i + 1).drop_last() =~= items@.subrange(0, i as int));
        match issue_exec(&items[i]) {
            Ok(x) => {
                let ghost before = out@;
                out.push(x);
                assert(out@.map_values(|i: Issue| issue_view(i)) =~= before.map_values(|i: Issue| issue_view(i)).push(issue_view(x)));
            },
            Err(()) => {
                proof {
                    issues_model_none_persists(items@, i + 1);
                }
                return Err(());
            },
        }
        i = i + 1;
    }
    assert(items@.subrange(0, i as int) =~= items@);
    Ok(out)
}

} // verus!

verus! {

fn tests_exec(v: &Json) -> (res: Result<Option<Tests>, ()>)
    ensures
        match tests_field(*v) {
            Some(m) => res matches Ok(x) && m == match x {
                Some(t) => Some((t.executed, t.failures, t.skipped)),
                None => None,
            },
            None => res is Err,
        },
{
    match crate::json::get(v, "tests") {
        None => Ok(None),
        Some(Json::Null) => Ok(None),
        Some(t) => {
            let keys = vec![
                crate::text::chars_of("executed"),
                crate::text::chars_of("failures"),
                crate::text::chars_of("skipped"),
            ];
            assert(crate::text::views(keys@) =~= seq!["executed"@, "failures"@, "skipped"@]);
            if !keys_ok(t, &keys) {
                return Err(());
            }
            let executed = usize_exec(t, "executed")?;
            let failures = usize_exec(t, "failures")?;
            let skipped = usize_exec(t, "skipped")?;
            Ok(Some(Tests { executed, failures, skipped }))
        },
    }
}

fn line_exec(v: &Json) -> (res: Result<CoverageLine, ()>)
    ensures
        match line_model(*v) {
            Some(m) => res matches Ok(x) && line_view(x) == m,
            None => res is Err,
        },
{
    let keys = vec![
        crate::text::chars_of("file"),
        crate::text::chars_of("line"),
        crate::text::chars_of("hits"),
        crate::text::chars_of("branches_found"),
        crate::text::chars_of("branches_hit"),
        crate::text::chars_of("excluded"),
    ];
    assert(crate::text::views(keys@) =~= seq!["file"@, "line"@, "hits"@, "branches_found"@, "branches_hit"@, "excluded"@]);
    if !keys_ok(v, &keys) {
        return Err(());
    }
    let file = text_exec(v, "file")?;
    let line = usize_exec(v, "line")?;
    let hits = u64_exec(v, "hits")?;
    let branches_found = usize_exec(v, "branches_found")?;
    let branches_hit = usize_exec(v, "branches_hit")?;
    let excluded = flag_exec(v, "excluded")?;
    Ok(CoverageLine { file, line, hits, branches_found, branches_hit, excluded })
}

proof fn lines_model_none_persists(items: Seq<Json>, m: int)
    requires
        0 <= m <= items.len(),
        lines_model(items.subrange(0, m)) is None,
    ensures
        lines_model(items) is None,
    decreases items.len() - m,
{
    if m < items.len() {
        assert(items.subrange(0, m + 1).drop_last() =~= items.subrange(0, m));
        lines_model_none_persists(items, m + 1);
    } else {
        assert(items.subrange(0, m) =~= items);
    }
}

fn lines_exec(items: &Vec<Json>) -> (res: Result<Vec<CoverageLine>, ()>)
    ensures
        match lines_model(items@) {
            Some(m) => res matches Ok(x) && x@.map_values(|c: CoverageLine| line_view(c)) == m,
            None => res is Err,
        },
{
    let mut out: Vec<CoverageLine> = Vec::new();
    let mut i: usize = 0;
    assert(items@.subrange(0, 0) =~= Seq::<Json>::empty());
    assert(out@.map_values(|c: CoverageLine| line_view(c)) =~= Seq::<(Seq<char>, usize, u64, usize, usize, bool)>::empty());
    while i < items.len()
        invariant
            0 <= i <= items@.len(),
            lines_model(items@.subrange(0, i as int)) == Some(out@.map_values(|c: CoverageLine| line_view(c))),
        decreases items@.len() - i,
    {
        assert(items@.subrange(0, i + 1).drop_last() =~= items@.subrange(0, i as int));
        match line_exec(&items[i]) {
            Ok(x) => {
                let ghost before = out@;
                out.push(x);
                assert(out@.map_values(|c: CoverageLine| line_view(c)) =~= before.map_values(|c: CoverageLine| line_view(c)).push(line_view(x)));
            },
            Err(()) => {
                proof {
                    lines_model_none_persists(items@, i + 1);
                }
                return Err(());
            },
        }
        i = i + 1;
    }
    assert(items@.subrange(0, i as int) =~= items@);
    Ok(out)
}

fn run_exec(v: &Json) -> (res: Result<SarifRun, ()>)
    ensures
        match run_model(*v) {
            Some(m) => res matches Ok(x) && run_view(x) == m,
            None => res is Err,
        },
{
    let keys = vec![
        crate::text::chars_of("tool"),
        crate::text::chars_of("version"),
        crate::text::chars_of("results"),
        crate::text::chars_of("violations"),
        crate::text::chars_of("non_violations"),
        crate::text::chars_of("suppressed_results"),
    ];
    assert(crate::text::views(keys@) =~= seq!["tool"@, "version"@, "results"@, "violations"@, "non_violations"@, "suppressed_results"@]);
    if !keys_ok(v, &keys) {
        return Err(());
    }
    let tool = text_exec(v, "tool")?;
    let version = opt_text_exec(v, "version")?;
    let results = usize_exec(v, "results")?;
    let violations = usize_exec(v, "violations")?;
    let non_violations = usize_exec(v, "non_violations")?;
    let suppressed_results = usize_exec(v, "suppressed_results")?;
    Ok(SarifRun { tool, version, results, violations, non_violations, suppressed_results })
}

proof fn runs_model_none_persists(items: Seq<Json>, m: int)
    requires
        0 <= m <= items.len(),
        runs_model(items.subrange(0, m)) is None,
    ensures
        runs_model(items) is None,
    decreases items.len() - m,
{
    if m < items.len() {
        assert(items.subrange(0, m + 1).drop_last() =~= items.subrange(0, m));
        runs_model_none_persists(items, m + 1);
    } else {
        assert(items.subrange(0, m) =~= items);
    }
}

fn runs_exec(items: &Vec<Json>) -> (res: Result<Vec<SarifRun>, ()>)
    ensures
        match runs_model(items@) {
            Some(m) => res matches Ok(x) && x@.map_values(|r: SarifRun| run_view(r)) == m,
            None => res is Err,
        },
{
    let mut out: Vec<SarifRun> = Vec::new();
    let mut i: usize = 0;
    assert(items@.subrange(0, 0) =~= Seq::<Json>::empty());
    assert(out@.map_values(|r: SarifRun| run_view(r)) =~= Seq::<RunModel>::empty());
    while i < items.len()
        invariant
            0 <= i <= items@.len(),
            runs_model(items@.subrange(0, i as int)) == Some(out@.map_values(|r: SarifRun| run_view(r))),
        decreases items@.len() - i,
    {
        assert(items@.subrange(0, i + 1).drop_last() =~= items@.subrange(0, i as int));
        match run_exec(&items[i]) {
            Ok(x) => {
                let ghost before = out@;
                out.push(x);
                assert(out@.map_values(|r: SarifRun| run_view(r)) =~= before.map_values(|r: SarifRun| run_view(r)).push(run_view(x)));
            },
            Err(()) => {
                proof {
                    runs_model_none_persists(items@, i + 1);
                }
                return Err(());
            },
        }
        i = i + 1;
    }
    assert(items@.subrange(0, i as int) =~= items@);
    Ok(out)
}

} // verus!

verus! {

/// The position of the first member named `key`.
fn member_index(members: &Vec<(String, Json)>, key: &str) -> (res: Option<usize>)
    ensures
        res matches Some(i) ==> i < members@.len() && crate::json::find_member(members@, key@) == Some(
            members@[i as int].1,
        ),
        res is None ==> crate::json::find_member(members@, key@) is None,
{
    let k = crate::text::chars_of(key);
    let mut i: usize = 0;
    assert(members@.skip(0) =~= members@);
    while i < members.len()
        invariant
            0 <= i <= members@.len(),
            k@ == key@,
            crate::json::find_member(members@, key@) == crate::json::find_member(members@.skip(i as int), key@),
        decreases members@.len() - i,
    {
        assert(members@.skip(i as int).drop_first() =~= members@.skip(i + 1));
        assert(members@.skip(i as int)[0] == members@[i as int]);
        let name = crate::text::chars_of(members[i].0.as_str());
        if crate::text::chars_equal(&name, &k) {
            return Some(i);
        }
        i = i + 1;
    }
    None
}

fn data_keys_exec() -> (res: Vec<Vec<char>>)
    ensures
        crate::text::views(res@) == data_keys(),
{
    let v = vec![
        crate::text::chars_of("issues"),
        crate::text::chars_of("tests"),
        crate::text::chars_of("coverage"),
        crate::text::chars_of("coverage_files"),
        crate::text::chars_of("coverage_roots"),
        crate::text::chars_of("coverage_producer"),
        crate::text::chars_of("branch_coverage"),
        crate::text::chars_of("affected_files"),
        crate::text::chars_of("sarif_runs"),
    ];
    assert(crate::text::views(v@) =~= data_keys());
    v
}

/// Read a diagnostics document: an object with exactly the fields of a report
/// (`issues` required, the others defaulted when absent), each of its type.
pub fn diagnostics(v: Json) -> (res: Result<Data, ()>)
    ensures
        match data_model(v) {
            Some(m) => res matches Ok(d) && data_view(d) == m,
            None => res is Err,
        },
{
    let keys = data_keys_exec();
    if !keys_ok(&v, &keys) {
        return Err(());
    }
    let issues = match crate::json::get(&v, "issues") {
        Some(Json::Array(items)) => issues_exec(items)?,
        _ => return Err(()),
    };
    let tests = tests_exec(&v)?;
    let empty: Vec<Json> = Vec::new();
    let cov = list_exec(&v, "coverage", &empty)?;
    let coverage = lines_exec(cov)?;
    let files = list_exec(&v, "coverage_files", &empty)?;
    let coverage_files = texts_exec(files)?;
    let roots = list_exec(&v, "coverage_roots", &empty)?;
    let coverage_roots = texts_exec(roots)?;
    let branch_coverage = flag_exec(&v, "branch_coverage")?;
    let affected_files = match crate::json::get(&v, "affected_files") {
        None => None,
        Some(Json::Null) => None,
        Some(Json::Array(items)) => Some(texts_exec(items)?),
        Some(_) => return Err(()),
    };
    let runs = list_exec(&v, "sarif_runs", &empty)?;
    let sarif_runs = runs_exec(runs)?;
    let ghost producer = producer_field(v);
    let coverage_producer = match v {
        Json::Object(mut members) => match member_index(&members, "coverage_producer") {
            None => None,
            Some(i) => {
                let (_, p) = members.remove(i);
                match p {
                    Json::Null => None,
                    other => Some(other),
                }
            },
        },
        _ => None,
    };
    assert(coverage_producer == producer);
    Ok(Data {
        issues,
        tests,
        coverage,
        coverage_files,
        coverage_roots,
        coverage_producer,
        branch_coverage,
        affected_files,
        sarif_runs,
    })
}

} // verus!
