//! LCOV traces: each source section is checked on its own, then the sections are
//! merged by line and branch identity.

use vstd::prelude::*;
use crate::text::{first_index, has_prefix, lines, parse_uint, pieces};
use super::{charge, ReportError, COVERAGE_BUDGET};

verus! {

/// Why an LCOV trace was refused.
#[derive(Debug, Clone, Copy, PartialEq, Eq, Structural)]
pub enum LcovError {
    /// An `SF` record inside an open section, or with an empty path.
    MalformedSource,
    /// A source path is unsafe or the normalized coverage exceeds its budget.
    Budget(ReportError),
    /// A record that needs an open section appears outside one.
    MissingSource,
    /// A `DA` record without two or three fields.
    MalformedDa,
    /// A `BRDA` record without four fields, or with an empty block or branch.
    MalformedBrda,
    /// A numeric field is not an unsigned integer.
    InvalidNumber,
    /// A line occurs twice in one section.
    DuplicateLine,
    /// A branch occurs twice in one section.
    DuplicateBranch,
    /// A summary counter occurs twice in one section.
    DuplicateCounter,
    /// A section without lines lacks an explicit `LF:0`.
    EmptySection,
    /// A summary counter contradicts the section's records.
    CounterMismatch,
    /// A branch names a line that has no `DA` record.
    BranchWithoutLine,
    /// A section is left open, or the trace has no section.
    Incomplete,
}

/// One source section as read so far: its path, its `DA` records in order, its
/// `BRDA` records in order (line, block, branch, taken) and its summary counters.
#[verifier::ext_equal]
pub struct LcovSection {
    pub file: Seq<char>,
    pub lines: Seq<(usize, u64)>,
    pub branches: Seq<(usize, Seq<char>, Seq<char>, bool)>,
    pub lf: Option<usize>,
    pub lh: Option<usize>,
    pub brf: Option<usize>,
    pub brh: Option<usize>,
}

/// The reader's state: the open section, the finished sections and the budget left.
#[verifier::ext_equal]
pub struct LcovState {
    pub current: Option<LcovSection>,
    pub done: Seq<LcovSection>,
    pub budget: int,
}

/// A section with no records yet.
pub open spec fn new_section(file: Seq<char>) -> LcovSection {
    LcovSection {
        file,
        lines: seq![],
        branches: seq![],
        lf: None,
        lh: None,
        brf: None,
        brh: None,
    }
}

/// The hits recorded for line `l` (the last `DA` record for it).
pub open spec fn da_hits(lines: Seq<(usize, u64)>, l: usize) -> Option<u64>
    decreases lines.len(),
{
    if lines.len() == 0 {
        None
    } else if lines.last().0 == l {
        Some(lines.last().1)
    } else {
        da_hits(lines.drop_last(), l)
    }
}

/// The section already records branch (`l`, `block`, `branch`).
pub open spec fn has_branch(
    branches: Seq<(usize, Seq<char>, Seq<char>, bool)>,
    l: usize,
    block: Seq<char>,
    branch: Seq<char>,
) -> bool {
    exists|i: int|
        0 <= i < branches.len() && (#[trigger] branches[i]).0 == l && branches[i].1 == block
            && branches[i].2 == branch
}

/// Read the fields after `DA:` into the section.
pub open spec fn read_da(s: LcovSection, values: Seq<char>) -> Result<LcovSection, LcovError> {
    let v = pieces(values, ',');
    if !(2 <= v.len() <= 3) {
        Err(LcovError::MalformedDa)
    } else {
        match parse_uint(v[0], usize::MAX as nat) {
            None => Err(LcovError::InvalidNumber),
            Some(l) => match parse_uint(v[1], u64::MAX as nat) {
                None => Err(LcovError::InvalidNumber),
                Some(h) => if da_hits(s.lines, l as usize) is Some {
                    Err(LcovError::DuplicateLine)
                } else {
                    Ok(LcovSection { lines: s.lines.push((l as usize, h as u64)), ..s })
                },
            },
        }
    }
}

/// Whether a `BRDA` taken count means the branch was taken (`-` means never run).
pub open spec fn brda_taken(count: Seq<char>) -> Result<bool, LcovError> {
    if count == "-"@ {
        Ok(false)
    } else {
        match parse_uint(count, u64::MAX as nat) {
            None => Err(LcovError::InvalidNumber),
            Some(n) => Ok(n > 0),
        }
    }
}

/// Read the fields after `BRDA:` into the section.
pub open spec fn read_brda(s: LcovSection, values: Seq<char>) -> Result<LcovSection, LcovError> {
    let v = pieces(values, ',');
    if v.len() != 4 || v[1].len() == 0 || v[2].len() == 0 {
        Err(LcovError::MalformedBrda)
    } else {
        match brda_taken(v[3]) {
            Err(e) => Err(e),
            Ok(taken) => match parse_uint(v[0], usize::MAX as nat) {
                None => Err(LcovError::InvalidNumber),
                Some(l) => if has_branch(s.branches, l as usize, v[1], v[2]) {
                    Err(LcovError::DuplicateBranch)
                } else {
                    Ok(LcovSection { branches: s.branches.push((l as usize, v[1], v[2], taken)), ..s })
                },
            },
        }
    }
}

/// A summary counter record: the key before the first `:` is `LF`, `LH`, `BRF` or `BRH`.
pub open spec fn counter_of(line: Seq<char>) -> Option<(Seq<char>, Seq<char>)> {
    match first_index(line, ':') {
        None => None,
        Some(k) => {
            let key = line.subrange(0, k);
            if key == "LF"@ || key == "LH"@ || key == "BRF"@ || key == "BRH"@ {
                Some((key, line.subrange(k + 1, line.len() as int)))
            } else {
                None
            }
        },
    }
}

/// Record a summary counter in the section.
pub open spec fn read_counter(s: LcovSection, key: Seq<char>, value: Seq<char>) -> Result<LcovSection, LcovError> {
    match parse_uint(value, usize::MAX as nat) {
        None => Err(LcovError::InvalidNumber),
        Some(n) => {
            let v = Some(n as usize);
            if key == "LF"@ {
                if s.lf is Some { Err(LcovError::DuplicateCounter) } else { Ok(LcovSection { lf: v, ..s }) }
            } else if key == "LH"@ {
                if s.lh is Some { Err(LcovError::DuplicateCounter) } else { Ok(LcovSection { lh: v, ..s }) }
            } else if key == "BRF"@ {
                if s.brf is Some { Err(LcovError::DuplicateCounter) } else { Ok(LcovSection { brf: v, ..s }) }
            } else {
                if s.brh is Some { Err(LcovError::DuplicateCounter) } else { Ok(LcovSection { brh: v, ..s }) }
            }
        },
    }
}

/// The number of lines with a positive hit count.
pub open spec fn hit_lines(lines: Seq<(usize, u64)>) -> nat
    decreases lines.len(),
{
    if lines.len() == 0 {
        0
    } else {
        hit_lines(lines.drop_last()) + if lines.last().1 > 0 { 1nat } else { 0nat }
    }
}

/// The number of branches that were taken.
pub open spec fn taken_branches(branches: Seq<(usize, Seq<char>, Seq<char>, bool)>) -> nat
    decreases branches.len(),
{
    if branches.len() == 0 {
        0
    } else {
        taken_branches(branches.drop_last()) + if branches.last().3 { 1nat } else { 0nat }
    }
}

/// A present counter that differs from what was observed.
pub open spec fn mismatch(counter: Option<usize>, observed: nat) -> bool {
    counter matches Some(v) && v != observed
}

/// Every branch of the section names a line that has a `DA` record.
pub open spec fn branches_on_lines(s: LcovSection) -> bool {
    forall|i: int| 0 <= i < s.branches.len() ==> da_hits(s.lines, (#[trigger] s.branches[i]).0) is Some
}

/// Why a finished section is inconsistent, if it is.
pub open spec fn section_error(s: LcovSection) -> Option<LcovError> {
    if s.lines.len() == 0 && s.lf != Some(0usize) {
        Some(LcovError::EmptySection)
    } else if mismatch(s.lf, s.lines.len()) || mismatch(s.lh, hit_lines(s.lines)) || mismatch(
        s.brf,
        s.branches.len(),
    ) || mismatch(s.brh, taken_branches(s.branches)) {
        Some(LcovError::CounterMismatch)
    } else if !branches_on_lines(s) {
        Some(LcovError::BranchWithoutLine)
    } else {
        None
    }
}

/// Charge `k` records naming `file` against the budget.
pub open spec fn charge_n(file: Seq<char>, remaining: int, k: nat) -> Result<int, ReportError>
    decreases k,
{
    if k == 0 {
        Ok(remaining)
    } else {
        match charge(file, remaining) {
            Err(e) => Err(e),
            Ok(left) => charge_n(file, left, (k - 1) as nat),
        }
    }
}

/// Apply an update to the open section.
pub open spec fn update_current(st: LcovState, r: Result<LcovSection, LcovError>) -> Result<LcovState, LcovError> {
    match r {
        Err(e) => Err(e),
        Ok(s) => Ok(LcovState { current: Some(s), ..st }),
    }
}

/// Close the open section: check it, charge one record per line and per branch, and
/// keep it.
pub open spec fn finish(st: LcovState, s: LcovSection) -> Result<LcovState, LcovError> {
    match section_error(s) {
        Some(e) => Err(e),
        None => match charge_n(s.file, st.budget, s.lines.len()) {
            Err(e) => Err(LcovError::Budget(e)),
            Ok(left) => match charge_n(s.file, left, s.branches.len()) {
                Err(e) => Err(LcovError::Budget(e)),
                Ok(rest) => Ok(LcovState { current: None, done: st.done.push(s), budget: rest }),
            },
        },
    }
}

/// Read one line of the trace.
pub open spec fn lcov_step(st: LcovState, line: Seq<char>) -> Result<LcovState, LcovError> {
    if has_prefix(line, "SF:"@) {
        let file = line.subrange(3, line.len() as int);
        if st.current is Some || file.len() == 0 {
            Err(LcovError::MalformedSource)
        } else {
            match charge(file, st.budget) {
                Err(e) => Err(LcovError::Budget(e)),
                Ok(left) => Ok(LcovState { current: Some(new_section(file)), done: st.done, budget: left }),
            }
        }
    } else if line == "end_of_record"@ {
        match st.current {
            None => Err(LcovError::MissingSource),
            Some(s) => finish(st, s),
        }
    } else if has_prefix(line, "DA:"@) {
        match st.current {
            None => Err(LcovError::MissingSource),
            Some(s) => update_current(st, read_da(s, line.subrange(3, line.len() as int))),
        }
    } else if has_prefix(line, "BRDA:"@) {
        match st.current {
            None => Err(LcovError::MissingSource),
            Some(s) => update_current(st, read_brda(s, line.subrange(5, line.len() as int))),
        }
    } else {
        match counter_of(line) {
            None => Ok(st),
            Some((key, value)) => match st.current {
                None => Err(LcovError::MissingSource),
                Some(s) => update_current(st, read_counter(s, key, value)),
            },
        }
    }
}

/// The state before any line.
pub open spec fn lcov_start() -> LcovState {
    LcovState { current: None, done: seq![], budget: COVERAGE_BUDGET as int }
}

/// The state after reading the lines `ls`, or the first error.
pub open spec fn lcov_run(ls: Seq<Seq<char>>) -> Result<LcovState, LcovError>
    decreases ls.len(),
{
    if ls.len() == 0 {
        Ok(lcov_start())
    } else {
        match lcov_run(ls.drop_last()) {
            Err(e) => Err(e),
            Ok(st) => lcov_step(st, ls.last()),
        }
    }
}

} // verus!

verus! {

/// Some finished section for `file` has a `DA` record for line `l`.
pub open spec fn line_present(done: Seq<LcovSection>, file: Seq<char>, l: usize) -> bool {
    exists|i: int| 0 <= i < done.len() && (#[trigger] done[i]).file == file && da_hits(done[i].lines, l) is Some
}

/// The hits that one section records for (`file`, `l`).
pub open spec fn section_hits(s: LcovSection, file: Seq<char>, l: usize) -> int {
    if s.file == file {
        match da_hits(s.lines, l) {
            Some(h) => h as int,
            None => 0,
        }
    } else {
        0
    }
}

/// The hits of (`file`, `l`) summed over the sections, saturating at `u64::MAX`.
pub open spec fn total_hits(done: Seq<LcovSection>, file: Seq<char>, l: usize) -> int
    decreases done.len(),
{
    if done.len() == 0 {
        0
    } else {
        let t = total_hits(done.drop_last(), file, l) + section_hits(done.last(), file, l);
        if t > u64::MAX {
            u64::MAX as int
        } else {
            t
        }
    }
}

/// The (block, branch) identities on line `l` among `branches`, the taken ones only
/// when `taken` holds.
pub open spec fn section_ids(
    branches: Seq<(usize, Seq<char>, Seq<char>, bool)>,
    l: usize,
    taken: bool,
) -> Set<(Seq<char>, Seq<char>)>
    decreases branches.len(),
{
    if branches.len() == 0 {
        Set::empty()
    } else {
        let rest = section_ids(branches.drop_last(), l, taken);
        let b = branches.last();
        if b.0 == l && (b.3 || !taken) {
            rest.insert((b.1, b.2))
        } else {
            rest
        }
    }
}

/// The branch identities of (`file`, `l`) over all sections (taken in some section,
/// when `taken` holds).
pub open spec fn branch_ids(done: Seq<LcovSection>, file: Seq<char>, l: usize, taken: bool) -> Set<
    (Seq<char>, Seq<char>),
>
    decreases done.len(),
{
    if done.len() == 0 {
        Set::empty()
    } else {
        let rest = branch_ids(done.drop_last(), file, l, taken);
        if done.last().file == file {
            rest.union(section_ids(done.last().branches, l, taken))
        } else {
            rest
        }
    }
}

/// `a` comes strictly before `b` in lexicographic character order.
pub open spec fn text_less(a: Seq<char>, b: Seq<char>) -> bool
    decreases a.len(),
{
    if a.len() == 0 {
        b.len() > 0
    } else if b.len() == 0 {
        false
    } else if a[0] != b[0] {
        a[0] < b[0]
    } else {
        text_less(a.drop_first(), b.drop_first())
    }
}

/// Coverage records are ordered by path, then by line.
pub open spec fn key_less(f1: Seq<char>, l1: usize, f2: Seq<char>, l2: usize) -> bool {
    text_less(f1, f2) || (f1 == f2 && l1 < l2)
}

/// The merged coverage of the finished sections: strictly ordered by (path, line),
/// one record per line that some section measured, with the saturated sum of its hits,
/// the number of distinct branches on it, and how many of them some section took.
pub open spec fn merged_coverage(done: Seq<LcovSection>, coverage: Seq<super::CoverageLine>) -> bool {
    &&& forall|i: int, j: int|
        0 <= i < j < coverage.len() ==> key_less(
            (#[trigger] coverage[i]).file@,
            coverage[i].line,
            (#[trigger] coverage[j]).file@,
            coverage[j].line,
        )
    &&& forall|i: int|
        0 <= i < coverage.len() ==> {
            let r = #[trigger] coverage[i];
            &&& !r.excluded
            &&& line_present(done, r.file@, r.line)
            &&& r.hits == total_hits(done, r.file@, r.line)
            &&& r.branches_found == branch_ids(done, r.file@, r.line, false).len()
            &&& r.branches_hit == branch_ids(done, r.file@, r.line, true).len()
        }
    &&& forall|file: Seq<char>, l: usize|
        line_present(done, file, l) ==> exists|i: int|
            0 <= i < coverage.len() && (#[trigger] coverage[i]).file@ == file && coverage[i].line == l
}

/// The paths of the finished sections, in order.
pub open spec fn section_files(done: Seq<LcovSection>) -> Seq<Seq<char>> {
    done.map_values(|s: LcovSection| s.file)
}

/// Every finished section carries `BRF` and `BRH` counters.
pub open spec fn all_branch_counters(done: Seq<LcovSection>) -> bool {
    forall|i: int| 0 <= i < done.len() ==> (#[trigger] done[i]).brf is Some && done[i].brh is Some
}

/// Some finished section records a branch.
pub open spec fn some_branch(done: Seq<LcovSection>) -> bool {
    exists|i: int| 0 <= i < done.len() && (#[trigger] done[i]).branches.len() > 0
}

/// The report that the finished sections make.
pub open spec fn lcov_data(done: Seq<LcovSection>, d: super::Data) -> bool {
    &&& d.issues@.len() == 0
    &&& d.tests is None
    &&& d.coverage_roots@.len() == 0
    &&& d.coverage_producer is None
    &&& d.affected_files is None
    &&& d.sarif_runs@.len() == 0
    &&& super::texts(d.coverage_files@) == section_files(done)
    &&& d.branch_coverage == (all_branch_counters(done) && some_branch(done))
    &&& merged_coverage(done, d.coverage@)
}

/// The outcome of reading an LCOV trace.
pub open spec fn lcov_outcome(text: Seq<char>, res: Result<super::Data, LcovError>) -> bool {
    match lcov_run(lines(text)) {
        Err(e) => res == Err::<super::Data, LcovError>(e),
        Ok(st) => if st.current is Some || st.done.len() == 0 {
            res == Err::<super::Data, LcovError>(LcovError::Incomplete)
        } else {
            res matches Ok(d) && lcov_data(st.done, d)
        },
    }
}

} // verus!

verus! {

/// No text comes before itself.
pub proof fn text_less_irreflexive(a: Seq<char>)
    ensures
        !text_less(a, a),
    decreases a.len(),
{
    if a.len() > 0 {
        text_less_irreflexive(a.drop_first());
    }
}

/// Two texts cannot each come before the other.
pub proof fn text_less_asymmetric(a: Seq<char>, b: Seq<char>)
    ensures
        !(text_less(a, b) && text_less(b, a)),
    decreases a.len(),
{
    if a.len() > 0 && b.len() > 0 && a[0] == b[0] {
        text_less_asymmetric(a.drop_first(), b.drop_first());
    }
}

/// Character order is transitive.
pub proof fn text_less_transitive(a: Seq<char>, b: Seq<char>, c: Seq<char>)
    requires
        text_less(a, b),
        text_less(b, c),
    ensures
        text_less(a, c),
    decreases a.len(),
{
    if a.len() > 0 && b.len() > 0 && c.len() > 0 && a[0] == b[0] && b[0] == c[0] {
        text_less_transitive(a.drop_first(), b.drop_first(), c.drop_first());
    }
}

/// Of two different texts, one comes first.
pub proof fn text_less_total(a: Seq<char>, b: Seq<char>)
    requires
        a != b,
    ensures
        text_less(a, b) || text_less(b, a),
    decreases a.len(),
{
    if a.len() > 0 && b.len() > 0 && a[0] == b[0] {
        if a.drop_first() == b.drop_first() {
            assert(a =~= seq![a[0]] + a.drop_first());
            assert(b =~= seq![b[0]] + b.drop_first());
        }
        text_less_total(a.drop_first(), b.drop_first());
    } else if a.len() == 0 && b.len() == 0 {
        assert(a =~= b);
    }
}

/// The key order is a strict total order.
proof fn key_order(f1: Seq<char>, l1: usize, f2: Seq<char>, l2: usize, f3: Seq<char>, l3: usize)
    ensures
        !key_less(f1, l1, f1, l1),
        !(key_less(f1, l1, f2, l2) && key_less(f2, l2, f1, l1)),
        key_less(f1, l1, f2, l2) && key_less(f2, l2, f3, l3) ==> key_less(f1, l1, f3, l3),
        !(f1 == f2 && l1 == l2) ==> key_less(f1, l1, f2, l2) || key_less(f2, l2, f1, l1),
{
    text_less_irreflexive(f1);
    text_less_asymmetric(f1, f2);
    if text_less(f1, f2) && text_less(f2, f3) {
        text_less_transitive(f1, f2, f3);
    }
    if f1 != f2 {
        text_less_total(f1, f2);
    }
    if f1 == f2 {
        text_less_irreflexive(f1);
    }
    if f2 == f3 {
        text_less_irreflexive(f2);
    }
}

/// Whether `a` comes strictly before `b` in character order.
pub fn text_lt(a: &[char], b: &[char]) -> (res: bool)
    ensures
        res == text_less(a@, b@),
{
    let mut i: usize = 0;
    assert(a@.skip(0) =~= a@);
    assert(b@.skip(0) =~= b@);
    while i < a.len() && i < b.len()
        invariant
            0 <= i <= a@.len(),
            i <= b@.len(),
            text_less(a@, b@) == text_less(a@.skip(i as int), b@.skip(i as int)),
        decreases a@.len() - i,
    {
        assert(a@.skip(i as int)[0] == a@[i as int]);
        assert(b@.skip(i as int)[0] == b@[i as int]);
        if a[i] != b[i] {
            return a[i] < b[i];
        }
        assert(a@.skip(i as int).drop_first() =~= a@.skip(i + 1));
        assert(b@.skip(i as int).drop_first() =~= b@.skip(i + 1));
        i = i + 1;
    }
    i == a.len() && i < b.len()
}

} // verus!

verus! {

/// The open section while it is read.
struct Section {
    file: String,
    lines: Vec<(usize, u64)>,
    branches: Vec<(usize, Vec<char>, Vec<char>, bool)>,
    lf: Option<usize>,
    lh: Option<usize>,
    brf: Option<usize>,
    brh: Option<usize>,
}

/// The character views of branch records.
pub open spec fn branch_views(v: Seq<(usize, Vec<char>, Vec<char>, bool)>) -> Seq<(usize, Seq<char>, Seq<char>, bool)> {
    v.map_values(|b: (usize, Vec<char>, Vec<char>, bool)| (b.0, b.1@, b.2@, b.3))
}

impl Section {
    spec fn model(&self) -> LcovSection {
        LcovSection {
            file: self.file@,
            lines: self.lines@,
            branches: branch_views(self.branches@),
            lf: self.lf,
            lh: self.lh,
            brf: self.brf,
            brh: self.brh,
        }
    }
}

/// No line occurs twice.
pub open spec fn distinct_lines(lines: Seq<(usize, u64)>) -> bool {
    forall|i: int, j: int| 0 <= i < j < lines.len() ==> (#[trigger] lines[i]).0 != (#[trigger] lines[j]).0
}

proof fn da_hits_none(lines: Seq<(usize, u64)>, l: usize)
    ensures
        da_hits(lines, l) is None <==> forall|i: int| 0 <= i < lines.len() ==> (#[trigger] lines[i]).0 != l,
    decreases lines.len(),
{
    if lines.len() > 0 {
        da_hits_none(lines.drop_last(), l);
        if da_hits(lines, l) is None {
            assert forall|i: int| 0 <= i < lines.len() implies (#[trigger] lines[i]).0 != l by {
                if i < lines.len() - 1 {
                    assert(lines.drop_last()[i] == lines[i]);
                }
            }
        } else {
            if lines.last().0 != l {
                let i = choose|i: int| 0 <= i < lines.drop_last().len() && (#[trigger] lines.drop_last()[i]).0 == l;
                assert(lines[i] == lines.drop_last()[i]);
            }
        }
    }
}

/// The hits recorded for line `l`.
fn find_line(lines: &Vec<(usize, u64)>, l: usize) -> (res: Option<u64>)
    ensures
        res == da_hits(lines@, l),
{
    let mut i = lines.len();
    assert(lines@.subrange(0, i as int) =~= lines@);
    while i > 0
        invariant
            0 <= i <= lines@.len(),
            da_hits(lines@, l) == da_hits(lines@.subrange(0, i as int), l),
        decreases i,
    {
        assert(lines@.subrange(0, i as int).drop_last() =~= lines@.subrange(0, i - 1));
        if lines[i - 1].0 == l {
            return Some(lines[i - 1].1);
        }
        i = i - 1;
    }
    None
}

/// Whether branch (`l`, `block`, `branch`) is already recorded.
fn find_branch(branches: &Vec<(usize, Vec<char>, Vec<char>, bool)>, l: usize, block: &Vec<char>, branch: &Vec<char>) -> (res: bool)
    ensures
        res == has_branch(branch_views(branches@), l, block@, branch@),
{
    let ghost v = branch_views(branches@);
    let mut i: usize = 0;
    while i < branches.len()
        invariant
            0 <= i <= branches@.len(),
            v == branch_views(branches@),
            forall|k: int| 0 <= k < i ==> !((#[trigger] v[k]).0 == l && v[k].1 == block@ && v[k].2 == branch@),
        decreases branches@.len() - i,
    {
        let b = &branches[i];
        if b.0 == l && crate::text::chars_equal(&b.1, block) && crate::text::chars_equal(&b.2, branch) {
            assert(v[i as int].0 == l && v[i as int].1 == block@ && v[i as int].2 == branch@);
            return true;
        }
        i = i + 1;
    }
    false
}

fn read_da_exec(sec: &mut Section, values: &[char]) -> (res: Result<(), LcovError>)
    requires
        distinct_lines(old(sec).lines@),
    ensures
        match read_da(old(sec).model(), values@) {
            Ok(s) => res is Ok && final(sec).model() == s && distinct_lines(final(sec).lines@),
            Err(e) => res == Err::<(), LcovError>(e),
        },
{
    let v = crate::text::split_char(values, ',');
    assert(crate::text::views(v@) == pieces(values@, ','));
    if v.len() < 2 || v.len() > 3 {
        return Err(LcovError::MalformedDa);
    }
    assert(crate::text::views(v@)[0] == v@[0]@);
    assert(crate::text::views(v@)[1] == v@[1]@);
    let l = match crate::text::parse_usize(&v[0]) {
        Some(l) => l,
        None => return Err(LcovError::InvalidNumber),
    };
    let h = match crate::text::parse_u64(&v[1]) {
        Some(h) => h,
        None => return Err(LcovError::InvalidNumber),
    };
    if find_line(&sec.lines, l).is_some() {
        return Err(LcovError::DuplicateLine);
    }
    proof {
        da_hits_none(sec.lines@, l);
    }
    sec.lines.push((l, h));
    proof {
        assert forall|i: int, j: int| 0 <= i < j < sec.lines@.len() implies (#[trigger] sec.lines@[i]).0
            != (#[trigger] sec.lines@[j]).0 by {
            if j < sec.lines@.len() - 1 {
                assert(sec.lines@[i] == old(sec).lines@[i]);
                assert(sec.lines@[j] == old(sec).lines@[j]);
            } else {
                assert(sec.lines@[i] == old(sec).lines@[i]);
            }
        }
    }
    assert(sec.model() =~= LcovSection { lines: old(sec).lines@.push((l, h)), ..old(sec).model() });
    Ok(())
}

fn read_brda_exec(sec: &mut Section, values: &[char]) -> (res: Result<(), LcovError>)
    ensures
        match read_brda(old(sec).model(), values@) {
            Ok(s) => res is Ok && final(sec).model() == s && final(sec).lines@ == old(sec).lines@,
            Err(e) => res == Err::<(), LcovError>(e),
        },
{
    let v = crate::text::split_char(values, ',');
    assert(crate::text::views(v@) == pieces(values@, ','));
    if v.len() != 4 || v[1].len() == 0 || v[2].len() == 0 {
        proof {
            if v@.len() == 4 {
                assert(crate::text::views(v@)[1] == v@[1]@);
                assert(crate::text::views(v@)[2] == v@[2]@);
            }
        }
        return Err(LcovError::MalformedBrda);
    }
    assert(crate::text::views(v@)[0] == v@[0]@);
    assert(crate::text::views(v@)[1] == v@[1]@);
    assert(crate::text::views(v@)[2] == v@[2]@);
    assert(crate::text::views(v@)[3] == v@[3]@);
    let taken = if crate::text::text_is(&v[3], "-") {
        false
    } else {
        match crate::text::parse_u64(&v[3]) {
            Some(n) => n > 0,
            None => return Err(LcovError::InvalidNumber),
        }
    };
    let l = match crate::text::parse_usize(&v[0]) {
        Some(l) => l,
        None => return Err(LcovError::InvalidNumber),
    };
    if find_branch(&sec.branches, l, &v[1], &v[2]) {
        return Err(LcovError::DuplicateBranch);
    }
    let block = crate::text::copy_range(&v[1], 0, v[1].len());
    let branch = crate::text::copy_range(&v[2], 0, v[2].len());
    assert(v@[1]@.subrange(0, v@[1]@.len() as int) =~= v@[1]@);
    assert(v@[2]@.subrange(0, v@[2]@.len() as int) =~= v@[2]@);
    sec.branches.push((l, block, branch, taken));
    assert(branch_views(sec.branches@) =~= branch_views(old(sec).branches@).push((l, v@[1]@, v@[2]@, taken)));
    assert(sec.model() =~= LcovSection {
        branches: branch_views(old(sec).branches@).push((l, v@[1]@, v@[2]@, taken)),
        ..old(sec).model()
    });
    Ok(())
}

} // verus!

verus! {

/// The counter key and value of a summary record, if the line is one.
fn counter_exec(line: &[char]) -> (res: Option<(Vec<char>, Vec<char>)>)
    ensures
        res matches Some(p) ==> counter_of(line@) == Some((p.0@, p.1@)),
        res is None ==> counter_of(line@) is None,
{
    match crate::text::find_char(line, 0, ':') {
        None => {
            assert(line@.subrange(0, line@.len() as int) =~= line@);
            None
        },
        Some(k) => {
            assert(line@.subrange(0, line@.len() as int) =~= line@);
            let n = line.len();
            assert(k < n);
            let key = crate::text::copy_range(line, 0, k);
            if crate::text::text_is(&key, "LF") || crate::text::text_is(&key, "LH")
                || crate::text::text_is(&key, "BRF") || crate::text::text_is(&key, "BRH") {
                let value = crate::text::copy_range(line, k + 1, n);
                Some((key, value))
            } else {
                None
            }
        },
    }
}

fn read_counter_exec(sec: &mut Section, key: &Vec<char>, value: &Vec<char>) -> (res: Result<(), LcovError>)
    requires
        key@ == "LF"@ || key@ == "LH"@ || key@ == "BRF"@ || key@ == "BRH"@,
    ensures
        match read_counter(old(sec).model(), key@, value@) {
            Ok(s) => res is Ok && final(sec).model() == s && final(sec).lines@ == old(sec).lines@,
            Err(e) => res == Err::<(), LcovError>(e),
        },
{
    let n = match crate::text::parse_usize(value) {
        Some(n) => n,
        None => return Err(LcovError::InvalidNumber),
    };
    if crate::text::text_is(key, "LF") {
        if sec.lf.is_some() {
            return Err(LcovError::DuplicateCounter);
        }
        sec.lf = Some(n);
    } else if crate::text::text_is(key, "LH") {
        if sec.lh.is_some() {
            return Err(LcovError::DuplicateCounter);
        }
        sec.lh = Some(n);
    } else if crate::text::text_is(key, "BRF") {
        if sec.brf.is_some() {
            return Err(LcovError::DuplicateCounter);
        }
        sec.brf = Some(n);
    } else {
        if sec.brh.is_some() {
            return Err(LcovError::DuplicateCounter);
        }
        sec.brh = Some(n);
    }
    Ok(())
}

fn counter_differs(counter: Option<usize>, observed: usize) -> (res: bool)
    ensures
        res == mismatch(counter, observed as nat),
{
    match counter {
        Some(v) => v != observed,
        None => false,
    }
}

/// Why the finished section is inconsistent, if it is.
fn check_section(sec: &Section) -> (res: Option<LcovError>)
    ensures
        res == section_error(sec.model()),
{
    let ghost m = sec.model();
    if sec.lines.len() == 0 && sec.lf != Some(0usize) {
        return Some(LcovError::EmptySection);
    }
    let mut hit: usize = 0;
    let mut i: usize = 0;
    assert(sec.lines@.subrange(0, 0) =~= Seq::<(usize, u64)>::empty());
    while i < sec.lines.len()
        invariant
            0 <= i <= sec.lines@.len(),
            hit <= i,
            hit == hit_lines(sec.lines@.subrange(0, i as int)),
        decreases sec.lines@.len() - i,
    {
        assert(sec.lines@.subrange(0, i + 1).drop_last() =~= sec.lines@.subrange(0, i as int));
        if sec.lines[i].1 > 0 {
            hit = hit + 1;
        }
        i = i + 1;
    }
    assert(sec.lines@.subrange(0, i as int) =~= sec.lines@);
    let ghost bv = branch_views(sec.branches@);
    let mut taken: usize = 0;
    let mut j: usize = 0;
    assert(bv.subrange(0, 0) =~= Seq::<(usize, Seq<char>, Seq<char>, bool)>::empty());
    while j < sec.branches.len()
        invariant
            0 <= j <= sec.branches@.len(),
            bv == branch_views(sec.branches@),
            taken <= j,
            taken == taken_branches(bv.subrange(0, j as int)),
        decreases sec.branches@.len() - j,
    {
        assert(bv.subrange(0, j + 1).drop_last() =~= bv.subrange(0, j as int));
        assert(bv.subrange(0, j + 1).last() == bv[j as int]);
        if sec.branches[j].3 {
            taken = taken + 1;
        }
        j = j + 1;
    }
    assert(bv.subrange(0, j as int) =~= bv);
    if counter_differs(sec.lf, sec.lines.len()) || counter_differs(sec.lh, hit) || counter_differs(
        sec.brf,
        sec.branches.len(),
    ) || counter_differs(sec.brh, taken) {
        return Some(LcovError::CounterMismatch);
    }
    let ghost counters_agree = !(m.lines.len() == 0 && m.lf != Some(0usize)) && !(mismatch(m.lf, m.lines.len())
        || mismatch(m.lh, hit_lines(m.lines)) || mismatch(m.brf, m.branches.len()) || mismatch(
        m.brh,
        taken_branches(m.branches),
    ));
    assert(counters_agree);
    let mut k: usize = 0;
    while k < sec.branches.len()
        invariant
            0 <= k <= sec.branches@.len(),
            bv == branch_views(sec.branches@),
            m == sec.model(),
            counters_agree,
            counters_agree == (!(m.lines.len() == 0 && m.lf != Some(0usize)) && !(mismatch(m.lf, m.lines.len())
                || mismatch(m.lh, hit_lines(m.lines)) || mismatch(m.brf, m.branches.len()) || mismatch(
                m.brh,
                taken_branches(m.branches),
            ))),
            forall|q: int| 0 <= q < k ==> da_hits(m.lines, (#[trigger] m.branches[q]).0) is Some,
        decreases sec.branches@.len() - k,
    {
        if find_line(&sec.lines, sec.branches[k].0).is_none() {
            assert(m.branches[k as int].0 == sec.branches@[k as int].0);
            return Some(LcovError::BranchWithoutLine);
        }
        k = k + 1;
    }
    None
}

} // verus!

verus! {

/// The section with only its first `k` lines and first `j` branches.
pub open spec fn part(s: LcovSection, k: int, j: int) -> LcovSection {
    LcovSection { lines: s.lines.subrange(0, k), branches: s.branches.subrange(0, j), ..s }
}

/// Every finished section's branches lie on measured lines.
pub open spec fn all_valid(done: Seq<LcovSection>) -> bool {
    forall|i: int| 0 <= i < done.len() ==> branches_on_lines(#[trigger] done[i])
}

/// `t` saturated at `u64::MAX`.
pub open spec fn saturate(t: int) -> int {
    if t > u64::MAX {
        u64::MAX as int
    } else {
        t
    }
}

/// Adding DA record (`file`, `l`, `h`) turns `d1` into `d2`.
pub open spec fn line_step(d1: Seq<LcovSection>, d2: Seq<LcovSection>, file: Seq<char>, l: usize, h: u64) -> bool {
    &&& forall|f: Seq<char>, q: usize|
        #[trigger] line_present(d2, f, q) == (line_present(d1, f, q) || (f == file && q == l))
    &&& forall|f: Seq<char>, q: usize|
        !(f == file && q == l) ==> #[trigger] total_hits(d2, f, q) == total_hits(d1, f, q)
    &&& total_hits(d2, file, l) == saturate(total_hits(d1, file, l) + h)
    &&& 0 <= total_hits(d1, file, l) <= u64::MAX
    &&& forall|f: Seq<char>, q: usize, t: bool| #[trigger] branch_ids(d2, f, q, t) == branch_ids(d1, f, q, t)
    &&& !line_present(d1, file, l) ==> total_hits(d1, file, l) == 0 && branch_ids(d1, file, l, false)
        == Set::<(Seq<char>, Seq<char>)>::empty() && branch_ids(d1, file, l, true) == Set::<
        (Seq<char>, Seq<char>),
    >::empty()
}

/// Adding branch `id` on (`file`, `l`), taken or not, turns `d1` into `d2`.
pub open spec fn branch_step(
    d1: Seq<LcovSection>,
    d2: Seq<LcovSection>,
    file: Seq<char>,
    l: usize,
    id: (Seq<char>, Seq<char>),
    taken: bool,
) -> bool {
    &&& line_present(d1, file, l)
    &&& forall|f: Seq<char>, q: usize| #[trigger] line_present(d2, f, q) == line_present(d1, f, q)
    &&& forall|f: Seq<char>, q: usize| #[trigger] total_hits(d2, f, q) == total_hits(d1, f, q)
    &&& forall|f: Seq<char>, q: usize, t: bool|
        #[trigger] branch_ids(d2, f, q, t) == if f == file && q == l && (taken || !t) {
            branch_ids(d1, f, q, t).insert(id)
        } else {
            branch_ids(d1, f, q, t)
        }
}

proof fn total_bounds(done: Seq<LcovSection>, f: Seq<char>, l: usize)
    ensures
        0 <= total_hits(done, f, l) <= u64::MAX,
    decreases done.len(),
{
    if done.len() > 0 {
        total_bounds(done.drop_last(), f, l);
    }
}

proof fn presence_push(done: Seq<LcovSection>, s: LcovSection, f: Seq<char>, l: usize)
    ensures
        line_present(done.push(s), f, l) == (line_present(done, f, l) || (s.file == f && da_hits(
            s.lines,
            l,
        ) is Some)),
{
    let d = done.push(s);
    if line_present(d, f, l) {
        let i = choose|i: int| 0 <= i < d.len() && (#[trigger] d[i]).file == f && da_hits(d[i].lines, l) is Some;
        if i < done.len() {
            assert(d[i] == done[i]);
        }
    }
    if line_present(done, f, l) {
        let i = choose|i: int| 0 <= i < done.len() && (#[trigger] done[i]).file == f && da_hits(done[i].lines, l) is Some;
        assert(d[i] == done[i]);
    }
    if s.file == f && da_hits(s.lines, l) is Some {
        assert(d[done.len() as int] == s);
    }
}

proof fn section_ids_off_lines(bs: Seq<(usize, Seq<char>, Seq<char>, bool)>, lines: Seq<(usize, u64)>, l: usize, t: bool)
    requires
        forall|i: int| 0 <= i < bs.len() ==> da_hits(lines, (#[trigger] bs[i]).0) is Some,
        da_hits(lines, l) is None,
    ensures
        section_ids(bs, l, t) == Set::<(Seq<char>, Seq<char>)>::empty(),
    decreases bs.len(),
{
    if bs.len() > 0 {
        assert forall|i: int| 0 <= i < bs.drop_last().len() implies da_hits(lines, (#[trigger] bs.drop_last()[i]).0) is Some by {
            assert(bs.drop_last()[i] == bs[i]);
        }
        section_ids_off_lines(bs.drop_last(), lines, l, t);
        assert(da_hits(lines, bs[bs.len() - 1].0) is Some);
    }
}

proof fn absent_is_empty(done: Seq<LcovSection>, f: Seq<char>, l: usize)
    requires
        all_valid(done),
        !line_present(done, f, l),
    ensures
        total_hits(done, f, l) == 0,
        branch_ids(done, f, l, false) == Set::<(Seq<char>, Seq<char>)>::empty(),
        branch_ids(done, f, l, true) == Set::<(Seq<char>, Seq<char>)>::empty(),
    decreases done.len(),
{
    if done.len() > 0 {
        let rest = done.drop_last();
        let s = done.last();
        assert(done =~= rest.push(s));
        presence_push(rest, s, f, l);
        assert forall|i: int| 0 <= i < rest.len() implies branches_on_lines(#[trigger] rest[i]) by {
            assert(rest[i] == done[i]);
        }
        absent_is_empty(rest, f, l);
        assert(branches_on_lines(done[done.len() - 1]));
        if s.file == f {
            section_ids_off_lines(s.branches, s.lines, l, false);
            section_ids_off_lines(s.branches, s.lines, l, true);
            assert(Set::<(Seq<char>, Seq<char>)>::empty().union(Set::empty()) =~= Set::<(Seq<char>, Seq<char>)>::empty());
        }
    }
}

proof fn line_step_holds(done: Seq<LcovSection>, s: LcovSection, k: int)
    requires
        all_valid(done),
        distinct_lines(s.lines),
        0 <= k < s.lines.len(),
    ensures
        line_step(done.push(part(s, k, 0)), done.push(part(s, k + 1, 0)), s.file, s.lines[k].0, s.lines[k].1),
{
    let d1 = done.push(part(s, k, 0));
    let d2 = done.push(part(s, k + 1, 0));
    let l = s.lines[k].0;
    let h = s.lines[k].1;
    assert(d1.drop_last() =~= done);
    assert(d2.drop_last() =~= done);
    assert(s.lines.subrange(0, k + 1).drop_last() =~= s.lines.subrange(0, k));
    assert(s.lines.subrange(0, k + 1).last() == (l, h));
    assert(s.branches.subrange(0, 0) =~= Seq::<(usize, Seq<char>, Seq<char>, bool)>::empty());
    da_hits_none(s.lines.subrange(0, k), l);
    assert forall|i: int| 0 <= i < s.lines.subrange(0, k).len() implies (#[trigger] s.lines.subrange(0, k)[i]).0 != l by {
        assert(s.lines.subrange(0, k)[i] == s.lines[i]);
    }
    assert forall|f: Seq<char>, q: usize|
        #[trigger] line_present(d2, f, q) == (line_present(d1, f, q) || (f == s.file && q == l)) by {
        presence_push(done, part(s, k, 0), f, q);
        presence_push(done, part(s, k + 1, 0), f, q);
    }
    assert forall|f: Seq<char>, q: usize|
        !(f == s.file && q == l) implies #[trigger] total_hits(d2, f, q) == total_hits(d1, f, q) by {
    }
    total_bounds(done, s.file, l);
    assert forall|f: Seq<char>, q: usize, t: bool| #[trigger] branch_ids(d2, f, q, t) == branch_ids(d1, f, q, t) by {
        assert(branch_ids(done, f, q, t).union(Set::empty()) =~= branch_ids(done, f, q, t));
    }
    if !line_present(d1, s.file, l) {
        presence_push(done, part(s, k, 0), s.file, l);
        absent_is_empty(done, s.file, l);
        assert(branch_ids(done, s.file, l, false).union(Set::empty()) =~= branch_ids(done, s.file, l, false));
        assert(branch_ids(done, s.file, l, true).union(Set::empty()) =~= branch_ids(done, s.file, l, true));
    }
}

proof fn branch_step_holds(done: Seq<LcovSection>, s: LcovSection, k: int)
    requires
        branches_on_lines(s),
        0 <= k < s.branches.len(),
    ensures
        branch_step(
            done.push(part(s, s.lines.len() as int, k)),
            done.push(part(s, s.lines.len() as int, k + 1)),
            s.file,
            s.branches[k].0,
            (s.branches[k].1, s.branches[k].2),
            s.branches[k].3,
        ),
{
    let n = s.lines.len() as int;
    let d1 = done.push(part(s, n, k));
    let d2 = done.push(part(s, n, k + 1));
    let b = s.branches[k];
    assert(d1.drop_last() =~= done);
    assert(d2.drop_last() =~= done);
    assert(s.lines.subrange(0, n) =~= s.lines);
    assert(s.branches.subrange(0, k + 1).drop_last() =~= s.branches.subrange(0, k));
    assert(s.branches.subrange(0, k + 1).last() == b);
    assert(da_hits(s.lines, b.0) is Some);
    presence_push(done, part(s, n, k), s.file, b.0);
    assert forall|f: Seq<char>, q: usize| #[trigger] line_present(d2, f, q) == line_present(d1, f, q) by {
        presence_push(done, part(s, n, k), f, q);
        presence_push(done, part(s, n, k + 1), f, q);
    }
    assert forall|f: Seq<char>, q: usize, t: bool|
        #[trigger] branch_ids(d2, f, q, t) == if f == s.file && q == b.0 && (b.3 || !t) {
            branch_ids(d1, f, q, t).insert((b.1, b.2))
        } else {
            branch_ids(d1, f, q, t)
        } by {
        if f == s.file {
            let a = branch_ids(done, f, q, t);
            let before = section_ids(s.branches.subrange(0, k), q, t);
            if q == b.0 && (b.3 || !t) {
                assert(a.union(before.insert((b.1, b.2))) =~= a.union(before).insert((b.1, b.2)));
            }
        }
    }
}

} // verus!

verus! {

/// One merged coverage line: its path, line, saturated hits, and the identities of its
/// branches and of those taken.
struct Merged {
    file: String,
    line: usize,
    hits: u64,
    ids: Vec<(Vec<char>, Vec<char>)>,
    taken: Vec<(Vec<char>, Vec<char>)>,
}

/// The character views of branch identities.
pub open spec fn id_views(v: Seq<(Vec<char>, Vec<char>)>) -> Seq<(Seq<char>, Seq<char>)> {
    v.map_values(|p: (Vec<char>, Vec<char>)| (p.0@, p.1@))
}

spec fn merged_ok(m: Merged, done: Seq<LcovSection>) -> bool {
    &&& line_present(done, m.file@, m.line)
    &&& m.hits == total_hits(done, m.file@, m.line)
    &&& id_views(m.ids@).no_duplicates()
    &&& id_views(m.ids@).to_set() == branch_ids(done, m.file@, m.line, false)
    &&& id_views(m.taken@).no_duplicates()
    &&& id_views(m.taken@).to_set() == branch_ids(done, m.file@, m.line, true)
}

spec fn sorted_recs(recs: Seq<Merged>) -> bool {
    forall|i: int, j: int|
        0 <= i < j < recs.len() ==> key_less(
            (#[trigger] recs[i]).file@,
            recs[i].line,
            (#[trigger] recs[j]).file@,
            recs[j].line,
        )
}

spec fn recs_ok(recs: Seq<Merged>, done: Seq<LcovSection>) -> bool {
    &&& sorted_recs(recs)
    &&& forall|i: int| 0 <= i < recs.len() ==> merged_ok(#[trigger] recs[i], done)
    &&& forall|f: Seq<char>, l: usize|
        #[trigger] line_present(done, f, l) ==> exists|i: int|
            0 <= i < recs.len() && (#[trigger] recs[i]).file@ == f && recs[i].line == l
}

/// Whether record `m` comes before (`file`, `l`).
fn before(m: &Merged, file: &Vec<char>, l: usize) -> (res: bool)
    ensures
        res == key_less(m.file@, m.line, file@, l),
{
    let mc = crate::text::chars_of(m.file.as_str());
    text_lt(&mc, file) || (crate::text::chars_equal(&mc, file) && m.line < l)
}

/// Whether record `m` is for (`file`, `l`).
fn same_key(m: &Merged, file: &Vec<char>, l: usize) -> (res: bool)
    ensures
        res == (m.file@ == file@ && m.line == l),
{
    let mc = crate::text::chars_of(m.file.as_str());
    crate::text::chars_equal(&mc, file) && m.line == l
}

/// Add DA record (`file`, `l`, `h`) to the merged records.
fn merge_line(
    recs: &mut Vec<Merged>,
    file: &String,
    l: usize,
    h: u64,
    Ghost(d1): Ghost<Seq<LcovSection>>,
    Ghost(d2): Ghost<Seq<LcovSection>>,
)
    requires
        recs_ok(old(recs)@, d1),
        line_step(d1, d2, file@, l, h),
    ensures
        recs_ok(final(recs)@, d2),
{
    let fc = crate::text::chars_of(file.as_str());
    let ghost old_recs = recs@;
    let mut p: usize = 0;
    while p < recs.len() && before(&recs[p], &fc, l)
        invariant
            0 <= p <= recs@.len(),
            recs@ == old_recs,
            fc@ == file@,
            forall|i: int| 0 <= i < p ==> key_less((#[trigger] recs@[i]).file@, recs@[i].line, file@, l),
        decreases recs@.len() - p,
    {
        p = p + 1;
    }
    assert forall|i: int| p <= i < recs@.len() implies !key_less((#[trigger] recs@[i]).file@, recs@[i].line, file@, l) by {
        if i > p {
            key_order(recs@[p as int].file@, recs@[p as int].line, recs@[i].file@, recs@[i].line, file@, l);
        }
    }
    if p < recs.len() && same_key(&recs[p], &fc, l) {
        let m = recs.remove(p);
        let hits = m.hits.saturating_add(h);
        let updated = Merged { file: m.file, line: m.line, hits, ids: m.ids, taken: m.taken };
        recs.insert(p, updated);
        assert(recs@ =~= old_recs.update(p as int, updated));
        assert forall|i: int, j: int| 0 <= i < j < recs@.len() implies key_less(
            (#[trigger] recs@[i]).file@,
            recs@[i].line,
            (#[trigger] recs@[j]).file@,
            recs@[j].line,
        ) by {
            assert(old_recs[i].file@ == recs@[i].file@ && old_recs[i].line == recs@[i].line);
            assert(old_recs[j].file@ == recs@[j].file@ && old_recs[j].line == recs@[j].line);
        }
        assert forall|i: int| 0 <= i < recs@.len() implies merged_ok(#[trigger] recs@[i], d2) by {
            if i != p {
                assert(recs@[i] == old_recs[i]);
                assert(merged_ok(old_recs[i], d1));
                key_order(old_recs[i].file@, old_recs[i].line, file@, l, file@, l);
                if i < p {
                } else {
                    key_order(old_recs[p as int].file@, old_recs[p as int].line, old_recs[i].file@, old_recs[i].line, file@, l);
                }
            } else {
                assert(merged_ok(old_recs[i], d1));
            }
        }
        assert forall|f: Seq<char>, q: usize| #[trigger] line_present(d2, f, q) implies exists|i: int|
            0 <= i < recs@.len() && (#[trigger] recs@[i]).file@ == f && recs@[i].line == q by {
            if f == file@ && q == l {
                assert(recs@[p as int].file@ == f && recs@[p as int].line == q);
            } else {
                assert(line_present(d1, f, q));
                let i = choose|i: int| 0 <= i < old_recs.len() && (#[trigger] old_recs[i]).file@ == f && old_recs[i].line == q;
                assert(recs@[i].file@ == f && recs@[i].line == q);
            }
        }
    } else {
        let ghost key_absent = !line_present(d1, file@, l);
        proof {
            if line_present(d1, file@, l) {
                let i = choose|i: int| 0 <= i < old_recs.len() && (#[trigger] old_recs[i]).file@ == file@ && old_recs[i].line == l;
                key_order(file@, l, file@, l, file@, l);
                if i > p {
                    key_order(old_recs[p as int].file@, old_recs[p as int].line, file@, l, file@, l);
                }
                assert(false);
            }
        }
        let fresh = Merged { file: file.clone(), line: l, hits: h, ids: Vec::new(), taken: Vec::new() };
        assert(id_views(fresh.ids@) =~= Seq::<(Seq<char>, Seq<char>)>::empty());
        assert(id_views(fresh.taken@) =~= Seq::<(Seq<char>, Seq<char>)>::empty());
        assert(Seq::<(Seq<char>, Seq<char>)>::empty().to_set() =~= Set::<(Seq<char>, Seq<char>)>::empty());
        recs.insert(p, fresh);
        assert(recs@ =~= old_recs.insert(p as int, fresh));
        proof {
            if p < old_recs.len() {
                key_order(old_recs[p as int].file@, old_recs[p as int].line, file@, l, file@, l);
            }
        }
        assert forall|i: int, j: int| 0 <= i < j < recs@.len() implies key_less(
            (#[trigger] recs@[i]).file@,
            recs@[i].line,
            (#[trigger] recs@[j]).file@,
            recs@[j].line,
        ) by {
            if j < p {
                assert(recs@[i] == old_recs[i] && recs@[j] == old_recs[j]);
            } else if j == p {
                assert(recs@[i] == old_recs[i]);
            } else if i == p {
                assert(recs@[j] == old_recs[j - 1]);
                if j - 1 > p {
                    key_order(file@, l, old_recs[p as int].file@, old_recs[p as int].line, old_recs[j - 1].file@, old_recs[j - 1].line);
                }
            } else if i < p {
                assert(recs@[i] == old_recs[i] && recs@[j] == old_recs[j - 1]);
            } else {
                assert(recs@[i] == old_recs[i - 1] && recs@[j] == old_recs[j - 1]);
            }
        }
        assert forall|i: int| 0 <= i < recs@.len() implies merged_ok(#[trigger] recs@[i], d2) by {
            if i < p {
                assert(recs@[i] == old_recs[i]);
                assert(merged_ok(old_recs[i], d1));
                key_order(old_recs[i].file@, old_recs[i].line, file@, l, file@, l);
            } else if i > p {
                assert(recs@[i] == old_recs[i - 1]);
                assert(merged_ok(old_recs[i - 1], d1));
                key_order(old_recs[i - 1].file@, old_recs[i - 1].line, file@, l, file@, l);
            } else {
                assert(recs@[i] == fresh);
            }
        }
        assert forall|f: Seq<char>, q: usize| #[trigger] line_present(d2, f, q) implies exists|i: int|
            0 <= i < recs@.len() && (#[trigger] recs@[i]).file@ == f && recs@[i].line == q by {
            if f == file@ && q == l {
                assert(recs@[p as int].file@ == f && recs@[p as int].line == q);
            } else {
                assert(line_present(d1, f, q));
                let i = choose|i: int| 0 <= i < old_recs.len() && (#[trigger] old_recs[i]).file@ == f && old_recs[i].line == q;
                if i < p {
                    assert(recs@[i] == old_recs[i]);
                } else {
                    assert(recs@[i + 1] == old_recs[i]);
                }
            }
        }
    }
}

} // verus!

verus! {

/// Whether identity (`block`, `branch`) is in `ids`.
fn has_id(ids: &Vec<(Vec<char>, Vec<char>)>, block: &Vec<char>, branch: &Vec<char>) -> (res: bool)
    ensures
        res == id_views(ids@).contains((block@, branch@)),
{
    let ghost v = id_views(ids@);
    let mut i: usize = 0;
    while i < ids.len()
        invariant
            0 <= i <= ids@.len(),
            v == id_views(ids@),
            forall|k: int| 0 <= k < i ==> (#[trigger] v[k]) != (block@, branch@),
        decreases ids@.len() - i,
    {
        if crate::text::chars_equal(&ids[i].0, block) && crate::text::chars_equal(&ids[i].1, branch) {
            assert(v[i as int] == (block@, branch@));
            return true;
        }
        i = i + 1;
    }
    false
}

/// Add identity (`block`, `branch`) to `ids` unless it is there.
fn add_id(ids: &mut Vec<(Vec<char>, Vec<char>)>, block: &Vec<char>, branch: &Vec<char>)
    requires
        id_views(old(ids)@).no_duplicates(),
    ensures
        id_views(final(ids)@).no_duplicates(),
        id_views(final(ids)@).to_set() == id_views(old(ids)@).to_set().insert((block@, branch@)),
{
    if has_id(ids, block, branch) {
        assert(id_views(ids@).to_set().insert((block@, branch@)) =~= id_views(ids@).to_set());
        return;
    }
    let b = crate::text::copy_range(block, 0, block.len());
    let r = crate::text::copy_range(branch, 0, branch.len());
    assert(block@.subrange(0, block@.len() as int) =~= block@);
    assert(branch@.subrange(0, branch@.len() as int) =~= branch@);
    let ghost before = id_views(ids@);
    ids.push((b, r));
    assert(id_views(ids@) =~= before.push((block@, branch@)));
    assert(id_views(ids@).drop_last() =~= before);
    assert(id_views(ids@).to_set() =~= before.to_set().insert((block@, branch@))) by {
        broadcast use vstd::seq_lib::group_seq_properties;

        assert(id_views(ids@).last() == (block@, branch@));
    }
    assert forall|i: int, j: int| 0 <= i < id_views(ids@).len() && 0 <= j < id_views(ids@).len() && i != j
        implies id_views(ids@)[i] != id_views(ids@)[j] by {
        if i < before.len() && j < before.len() {
        } else if i < before.len() {
            assert(before.contains(before[i]));
        } else {
            assert(before.contains(before[j]));
        }
    }
}

/// Add branch (`file`, `l`, `block`, `branch`), taken or not, to the merged records.
fn merge_branch(
    recs: &mut Vec<Merged>,
    file: &String,
    l: usize,
    block: &Vec<char>,
    branch: &Vec<char>,
    taken: bool,
    Ghost(d1): Ghost<Seq<LcovSection>>,
    Ghost(d2): Ghost<Seq<LcovSection>>,
)
    requires
        recs_ok(old(recs)@, d1),
        branch_step(d1, d2, file@, l, (block@, branch@), taken),
    ensures
        recs_ok(final(recs)@, d2),
{
    let fc = crate::text::chars_of(file.as_str());
    let ghost old_recs = recs@;
    let mut p: usize = 0;
    while p < recs.len() && !same_key(&recs[p], &fc, l)
        invariant
            0 <= p <= recs@.len(),
            recs@ == old_recs,
            fc@ == file@,
            forall|i: int| 0 <= i < p ==> !((#[trigger] recs@[i]).file@ == file@ && recs@[i].line == l),
        decreases recs@.len() - p,
    {
        p = p + 1;
    }
    if p == recs.len() {
        proof {
            assert(line_present(d1, file@, l));
            let i = choose|i: int| 0 <= i < old_recs.len() && (#[trigger] old_recs[i]).file@ == file@ && old_recs[i].line == l;
            assert(false);
        }
        return;
    }
    let mut m = recs.remove(p);
    assert(m == old_recs[p as int]);
    assert(merged_ok(old_recs[p as int], d1));
    add_id(&mut m.ids, block, branch);
    if taken {
        add_id(&mut m.taken, block, branch);
    }
    recs.insert(p, m);
    assert(recs@ =~= old_recs.update(p as int, m));
    assert forall|i: int, j: int| 0 <= i < j < recs@.len() implies key_less(
        (#[trigger] recs@[i]).file@,
        recs@[i].line,
        (#[trigger] recs@[j]).file@,
        recs@[j].line,
    ) by {
        assert(old_recs[i].file@ == recs@[i].file@ && old_recs[i].line == recs@[i].line);
        assert(old_recs[j].file@ == recs@[j].file@ && old_recs[j].line == recs@[j].line);
    }
    assert forall|i: int| 0 <= i < recs@.len() implies merged_ok(#[trigger] recs@[i], d2) by {
        if i != p {
            assert(recs@[i] == old_recs[i]);
            assert(merged_ok(old_recs[i], d1));
            key_order(old_recs[i].file@, old_recs[i].line, old_recs[p as int].file@, old_recs[p as int].line, file@, l);
            assert(!(old_recs[i].file@ == file@ && old_recs[i].line == l));
            assert(branch_ids(d2, old_recs[i].file@, old_recs[i].line, false) == branch_ids(d1, old_recs[i].file@, old_recs[i].line, false));
            assert(branch_ids(d2, old_recs[i].file@, old_recs[i].line, true) == branch_ids(d1, old_recs[i].file@, old_recs[i].line, true));
        } else {
            assert(branch_ids(d2, file@, l, false) == branch_ids(d1, file@, l, false).insert((block@, branch@)));
            assert(branch_ids(d2, file@, l, true) == if taken {
                branch_ids(d1, file@, l, true).insert((block@, branch@))
            } else {
                branch_ids(d1, file@, l, true)
            });
        }
    }
    assert forall|f: Seq<char>, q: usize| #[trigger] line_present(d2, f, q) implies exists|i: int|
        0 <= i < recs@.len() && (#[trigger] recs@[i]).file@ == f && recs@[i].line == q by {
        assert(line_present(d1, f, q));
        let i = choose|i: int| 0 <= i < old_recs.len() && (#[trigger] old_recs[i]).file@ == f && old_recs[i].line == q;
        assert(recs@[i].file@ == f && recs@[i].line == q);
    }
}

} // verus!

verus! {

proof fn recs_ok_transfer(recs: Seq<Merged>, d1: Seq<LcovSection>, d2: Seq<LcovSection>)
    requires
        recs_ok(recs, d1),
        forall|f: Seq<char>, q: usize| #[trigger] line_present(d2, f, q) == line_present(d1, f, q),
        forall|f: Seq<char>, q: usize| #[trigger] total_hits(d2, f, q) == total_hits(d1, f, q),
        forall|f: Seq<char>, q: usize, t: bool| #[trigger] branch_ids(d2, f, q, t) == branch_ids(d1, f, q, t),
    ensures
        recs_ok(recs, d2),
{
    assert forall|i: int| 0 <= i < recs.len() implies merged_ok(#[trigger] recs[i], d2) by {
        assert(merged_ok(recs[i], d1));
        assert(branch_ids(d2, recs[i].file@, recs[i].line, false) == branch_ids(d1, recs[i].file@, recs[i].line, false));
        assert(branch_ids(d2, recs[i].file@, recs[i].line, true) == branch_ids(d1, recs[i].file@, recs[i].line, true));
    }
    assert forall|f: Seq<char>, q: usize| #[trigger] line_present(d2, f, q) implies exists|i: int|
        0 <= i < recs.len() && (#[trigger] recs[i]).file@ == f && recs[i].line == q by {
        assert(line_present(d1, f, q));
    }
}

proof fn push_empty_section(done: Seq<LcovSection>, s: LcovSection)
    requires
        s.lines.len() == 0,
        s.branches.len() == 0,
    ensures
        forall|f: Seq<char>, q: usize| #[trigger] line_present(done.push(s), f, q) == line_present(done, f, q),
        forall|f: Seq<char>, q: usize| #[trigger] total_hits(done.push(s), f, q) == total_hits(done, f, q),
        forall|f: Seq<char>, q: usize, t: bool| #[trigger] branch_ids(done.push(s), f, q, t) == branch_ids(done, f, q, t),
{
    let d = done.push(s);
    assert(d.drop_last() =~= done);
    assert forall|f: Seq<char>, q: usize| #[trigger] line_present(d, f, q) == line_present(done, f, q) by {
        presence_push(done, s, f, q);
    }
    assert forall|f: Seq<char>, q: usize| #[trigger] total_hits(d, f, q) == total_hits(done, f, q) by {
        total_bounds(done, f, q);
    }
    assert forall|f: Seq<char>, q: usize, t: bool| #[trigger] branch_ids(d, f, q, t) == branch_ids(done, f, q, t) by {
        assert(branch_ids(done, f, q, t).union(Set::empty()) =~= branch_ids(done, f, q, t));
    }
}

/// Merge a checked section into the records.
fn merge_section(recs: &mut Vec<Merged>, sec: &Section, Ghost(done): Ghost<Seq<LcovSection>>)
    requires
        recs_ok(old(recs)@, done),
        all_valid(done),
        section_error(sec.model()) is None,
        distinct_lines(sec.lines@),
    ensures
        recs_ok(final(recs)@, done.push(sec.model())),
{
    let ghost m = sec.model();
    assert(branches_on_lines(m));
    proof {
        assert(m.lines.subrange(0, 0).len() == 0);
        assert(m.branches.subrange(0, 0).len() == 0);
        push_empty_section(done, part(m, 0, 0));
        recs_ok_transfer(recs@, done, done.push(part(m, 0, 0)));
    }
    let mut k: usize = 0;
    while k < sec.lines.len()
        invariant
            0 <= k <= sec.lines@.len(),
            m == sec.model(),
            all_valid(done),
            distinct_lines(m.lines),
            recs_ok(recs@, done.push(part(m, k as int, 0))),
        decreases sec.lines@.len() - k,
    {
        proof {
            line_step_holds(done, m, k as int);
        }
        merge_line(
            recs,
            &sec.file,
            sec.lines[k].0,
            sec.lines[k].1,
            Ghost(done.push(part(m, k as int, 0))),
            Ghost(done.push(part(m, k + 1, 0))),
        );
        k = k + 1;
    }
    let n = sec.lines.len();
    let mut j: usize = 0;
    while j < sec.branches.len()
        invariant
            0 <= j <= sec.branches@.len(),
            n == sec.lines@.len(),
            m == sec.model(),
            branches_on_lines(m),
            recs_ok(recs@, done.push(part(m, n as int, j as int))),
        decreases sec.branches@.len() - j,
    {
        proof {
            branch_step_holds(done, m, j as int);
        }
        let b = &sec.branches[j];
        assert(m.branches[j as int] == (b.0, b.1@, b.2@, b.3));
        merge_branch(
            recs,
            &sec.file,
            b.0,
            &b.1,
            &b.2,
            b.3,
            Ghost(done.push(part(m, n as int, j as int))),
            Ghost(done.push(part(m, n as int, j + 1))),
        );
        j = j + 1;
    }
    assert(part(m, n as int, j as int) =~= m);
}

} // verus!

verus! {

/// Everything the reader keeps between lines.
struct Reader {
    current: Option<Section>,
    files: Vec<String>,
    recs: Vec<Merged>,
    budget: usize,
    counted: bool,
    any_branch: bool,
    done: Ghost<Seq<LcovSection>>,
}

impl Reader {
    spec fn state(&self) -> LcovState {
        LcovState {
            current: match self.current {
                Some(c) => Some(c.model()),
                None => None,
            },
            done: self.done@,
            budget: self.budget as int,
        }
    }

    spec fn inv(&self) -> bool {
        &&& recs_ok(self.recs@, self.done@)
        &&& all_valid(self.done@)
        &&& super::texts(self.files@) == section_files(self.done@)
        &&& self.counted == all_branch_counters(self.done@)
        &&& self.any_branch == some_branch(self.done@)
        &&& (self.current matches Some(c) ==> distinct_lines(c.lines@))
    }
}

/// Close the open section.
fn finish_exec(r: &mut Reader) -> (res: Result<(), LcovError>)
    requires
        old(r).inv(),
    ensures
        match old(r).state().current {
            None => res == Err::<(), LcovError>(LcovError::MissingSource),
            Some(s) => match finish(old(r).state(), s) {
                Ok(st) => res is Ok && final(r).state() == st && final(r).inv(),
                Err(e) => res == Err::<(), LcovError>(e),
            },
        },
{
    let ghost st0 = r.state();
    let sec = match r.current.take() {
        None => return Err(LcovError::MissingSource),
        Some(s) => s,
    };
    let ghost m = sec.model();
    if let Some(e) = check_section(&sec) {
        return Err(e);
    }
    assert(distinct_lines(m.lines));
    let ghost start = r.budget as int;
    let mut i: usize = 0;
    while i < sec.lines.len()
        invariant
            0 <= i <= sec.lines@.len(),
            m == sec.model(),
            st0 == old(r).state(),
            st0.current == Some(m),
            st0.budget == start,
            section_error(m) is None,
            r.current is None,
            r.inv(),
            r.done@ == st0.done,
            distinct_lines(m.lines),
            charge_n(m.file, start, m.lines.len()) == charge_n(m.file, r.budget as int, (m.lines.len() - i) as nat),
        decreases sec.lines@.len() - i,
    {
        match super::coverage_budget(&mut r.budget, sec.file.as_str()) {
            Err(e) => return Err(LcovError::Budget(e)),
            Ok(()) => {},
        }
        i = i + 1;
    }
    let ghost middle = r.budget as int;
    let mut j: usize = 0;
    while j < sec.branches.len()
        invariant
            0 <= j <= sec.branches@.len(),
            m == sec.model(),
            st0 == old(r).state(),
            st0.current == Some(m),
            st0.budget == start,
            section_error(m) is None,
            r.current is None,
            r.inv(),
            r.done@ == st0.done,
            distinct_lines(m.lines),
            charge_n(m.file, start, m.lines.len()) == Ok::<int, ReportError>(middle),
            charge_n(m.file, middle, m.branches.len()) == charge_n(m.file, r.budget as int, (m.branches.len() - j) as nat),
        decreases sec.branches@.len() - j,
    {
        match super::coverage_budget(&mut r.budget, sec.file.as_str()) {
            Err(e) => return Err(LcovError::Budget(e)),
            Ok(()) => {},
        }
        j = j + 1;
    }
    let ghost done0 = r.done@;
    let ghost files0 = r.files@;
    r.counted = r.counted && sec.brf.is_some() && sec.brh.is_some();
    r.any_branch = r.any_branch || sec.branches.len() > 0;
    let fname = sec.file.clone();
    assert(fname@ == sec.file@);
    r.files.push(fname);
    merge_section(&mut r.recs, &sec, Ghost(done0));
    r.done = Ghost(done0.push(m));
    proof {
        let d = done0.push(m);
        assert(d[done0.len() as int] == m);
        assert forall|k: int| 0 <= k < d.len() implies branches_on_lines(#[trigger] d[k]) by {
            if k < done0.len() {
                assert(d[k] == done0[k]);
            }
        }
        assert(r.files@ == files0.push(fname));
        assert(super::texts(files0) == section_files(done0));
        assert(super::texts(r.files@) =~= super::texts(files0).push(fname@));
        assert(section_files(d) =~= section_files(done0).push(m.file));
        assert forall|k: int| 0 <= k < d.len() implies #[trigger] super::texts(r.files@)[k] == section_files(d)[k] by {
            if k < done0.len() {
                assert(super::texts(files0)[k] == section_files(done0)[k]);
                assert(d[k] == done0[k]);
                assert(r.files@[k] == files0[k]);
            } else {
                assert(r.files@[k] == fname);
                assert(d[k] == m);
            }
        }
        assert(super::texts(r.files@) =~= section_files(d));
        assert(all_branch_counters(d) == (all_branch_counters(done0) && m.brf is Some && m.brh is Some)) by {
            if all_branch_counters(done0) && m.brf is Some && m.brh is Some {
                assert forall|k: int| 0 <= k < d.len() implies (#[trigger] d[k]).brf is Some && d[k].brh is Some by {
                    if k < done0.len() {
                        assert(d[k] == done0[k]);
                    }
                }
            }
            if all_branch_counters(d) {
                assert forall|k: int| 0 <= k < done0.len() implies (#[trigger] done0[k]).brf is Some && done0[k].brh is Some by {
                    assert(d[k] == done0[k]);
                }
            }
        }
        assert(some_branch(d) == (some_branch(done0) || m.branches.len() > 0)) by {
            if some_branch(done0) {
                let k = choose|k: int| 0 <= k < done0.len() && (#[trigger] done0[k]).branches.len() > 0;
                assert(d[k] == done0[k]);
            }
            if some_branch(d) {
                let k = choose|k: int| 0 <= k < d.len() && (#[trigger] d[k]).branches.len() > 0;
                if k < done0.len() {
                    assert(d[k] == done0[k]);
                }
            }
        }
        assert(r.current is None);
        assert(r.done@ == d);
        assert(r.state() =~= LcovState { current: None, done: d, budget: r.budget as int });
    }
    Ok(())
}

/// A section with no records yet, for `file`.
fn open_section(file: String) -> (res: Section)
    ensures
        res.model() == new_section(file@),
        res.lines@.len() == 0,
{
    let s = Section {
        file,
        lines: Vec::new(),
        branches: Vec::new(),
        lf: None,
        lh: None,
        brf: None,
        brh: None,
    };
    assert(branch_views(s.branches@) =~= Seq::<(usize, Seq<char>, Seq<char>, bool)>::empty());
    assert(s.model() =~= new_section(file@));
    s
}

} // verus!

verus! {

/// Read one line of the trace into the reader.
fn read_line(r: &mut Reader, line: &Vec<char>) -> (res: Result<(), LcovError>)
    requires
        old(r).inv(),
    ensures
        match lcov_step(old(r).state(), line@) {
            Ok(st) => res is Ok && final(r).state() == st && final(r).inv(),
            Err(e) => res == Err::<(), LcovError>(e),
        },
{
    let n = line.len();
    if crate::text::starts_with_text(line, "SF:") {
        proof {
            reveal_strlit("SF:");
        }
        let fc = crate::text::copy_range(line, 3, n);
        if r.current.is_some() || fc.len() == 0 {
            return Err(LcovError::MalformedSource);
        }
        let file = crate::text::string_of(&fc);
        match super::coverage_budget(&mut r.budget, file.as_str()) {
            Err(e) => return Err(LcovError::Budget(e)),
            Ok(()) => {},
        }
        r.current = Some(open_section(file));
        return Ok(());
    }
    if crate::text::text_is(line, "end_of_record") {
        return finish_exec(r);
    }
    if crate::text::starts_with_text(line, "DA:") {
        proof {
            reveal_strlit("DA:");
        }
        let values = crate::text::copy_range(line, 3, n);
        let mut sec = match r.current.take() {
            None => return Err(LcovError::MissingSource),
            Some(s) => s,
        };
        match read_da_exec(&mut sec, &values) {
            Err(e) => return Err(e),
            Ok(()) => {},
        }
        r.current = Some(sec);
        return Ok(());
    }
    if crate::text::starts_with_text(line, "BRDA:") {
        proof {
            reveal_strlit("BRDA:");
        }
        let values = crate::text::copy_range(line, 5, n);
        let mut sec = match r.current.take() {
            None => return Err(LcovError::MissingSource),
            Some(s) => s,
        };
        match read_brda_exec(&mut sec, &values) {
            Err(e) => return Err(e),
            Ok(()) => {},
        }
        r.current = Some(sec);
        return Ok(());
    }
    match counter_exec(line) {
        None => Ok(()),
        Some((key, value)) => {
            let mut sec = match r.current.take() {
                None => return Err(LcovError::MissingSource),
                Some(s) => s,
            };
            match read_counter_exec(&mut sec, &key, &value) {
                Err(e) => return Err(e),
                Ok(()) => {},
            }
            r.current = Some(sec);
            Ok(())
        },
    }
}

proof fn run_error_persists(ls: Seq<Seq<char>>, a: int)
    requires
        0 <= a <= ls.len(),
        lcov_run(ls.subrange(0, a)) is Err,
    ensures
        lcov_run(ls) == lcov_run(ls.subrange(0, a)),
    decreases ls.len() - a,
{
    if a < ls.len() {
        assert(ls.subrange(0, a + 1).drop_last() =~= ls.subrange(0, a));
        run_error_persists(ls, a + 1);
    } else {
        assert(ls.subrange(0, a) =~= ls);
    }
}

/// Read an LCOV trace: sections are checked one by one, then merged by line and
/// branch identity into coverage records ordered by path and line.
pub fn parse(text: &str) -> (res: Result<super::Data, LcovError>)
    ensures
        lcov_outcome(text@, res),
{
    let chars = crate::text::chars_of(text);
    let ls = crate::text::split_lines(&chars);
    let ghost lv = crate::text::views(ls@);
    let ghost nothing: Seq<LcovSection> = seq![];
    let mut r = Reader {
        current: None,
        files: Vec::new(),
        recs: Vec::new(),
        budget: COVERAGE_BUDGET,
        counted: true,
        any_branch: false,
        done: Ghost(nothing),
    };
    assert(super::texts(r.files@) =~= section_files(seq![]));
    assert(lv.subrange(0, 0) =~= Seq::<Seq<char>>::empty());
    assert(r.state() =~= lcov_start());
    let mut i: usize = 0;
    while i < ls.len()
        invariant
            0 <= i <= ls@.len(),
            lv == crate::text::views(ls@),
            lv == lines(text@),
            r.inv(),
            lcov_run(lv.subrange(0, i as int)) == Ok::<LcovState, LcovError>(r.state()),
        decreases ls@.len() - i,
    {
        assert(lv.subrange(0, i + 1).drop_last() =~= lv.subrange(0, i as int));
        assert(lv.subrange(0, i + 1).last() == ls@[i as int]@);
        match read_line(&mut r, &ls[i]) {
            Err(e) => {
                proof {
                    run_error_persists(lv, i + 1);
                }
                return Err(e);
            },
            Ok(()) => {},
        }
        i = i + 1;
    }
    assert(lv.subrange(0, i as int) =~= lv);
    assert(super::texts(r.files@).len() == r.done@.len());
    if r.current.is_some() || r.files.len() == 0 {
        return Err(LcovError::Incomplete);
    }
    let ghost done = r.done@;
    let mut coverage: Vec<super::CoverageLine> = Vec::new();
    let mut k: usize = 0;
    while k < r.recs.len()
        invariant
            0 <= k <= r.recs@.len(),
            recs_ok(r.recs@, done),
            coverage@.len() == k,
            forall|q: int| 0 <= q < k ==> {
                let c = #[trigger] coverage@[q];
                let m = r.recs@[q];
                &&& c.file@ == m.file@
                &&& c.line == m.line
                &&& !c.excluded
                &&& c.hits == m.hits
                &&& c.branches_found == id_views(m.ids@).to_set().len()
                &&& c.branches_hit == id_views(m.taken@).to_set().len()
            },
        decreases r.recs@.len() - k,
    {
        let m = &r.recs[k];
        assert(merged_ok(r.recs@[k as int], done));
        proof {
            id_views(m.ids@).unique_seq_to_set();
            id_views(m.taken@).unique_seq_to_set();
        }
        coverage.push(super::CoverageLine {
            file: m.file.clone(),
            line: m.line,
            hits: m.hits,
            branches_found: m.ids.len(),
            branches_hit: m.taken.len(),
            excluded: false,
        });
        k = k + 1;
    }
    let data = super::Data {
        issues: Vec::new(),
        tests: None,
        coverage,
        coverage_files: r.files,
        coverage_roots: Vec::new(),
        coverage_producer: None,
        branch_coverage: r.counted && r.any_branch,
        affected_files: None,
        sarif_runs: Vec::new(),
    };
    assert forall|q: int, j: int| 0 <= q < j < data.coverage@.len() implies key_less(
        (#[trigger] data.coverage@[q]).file@,
        data.coverage@[q].line,
        (#[trigger] data.coverage@[j]).file@,
        data.coverage@[j].line,
    ) by {
        assert(key_less(r.recs@[q].file@, r.recs@[q].line, r.recs@[j].file@, r.recs@[j].line));
    }
    assert forall|q: int| 0 <= q < data.coverage@.len() implies {
        let c = #[trigger] data.coverage@[q];
        &&& !c.excluded
        &&& line_present(done, c.file@, c.line)
        &&& c.hits == total_hits(done, c.file@, c.line)
        &&& c.branches_found == branch_ids(done, c.file@, c.line, false).len()
        &&& c.branches_hit == branch_ids(done, c.file@, c.line, true).len()
    } by {
        assert(merged_ok(r.recs@[q], done));
    }
    assert forall|f: Seq<char>, l: usize| line_present(done, f, l) implies exists|q: int|
        0 <= q < data.coverage@.len() && (#[trigger] data.coverage@[q]).file@ == f && data.coverage@[q].line == l by {
        let q = choose|q: int| 0 <= q < r.recs@.len() && (#[trigger] r.recs@[q]).file@ == f && r.recs@[q].line == l;
        assert(data.coverage@[q].file@ == f);
    }
    Ok(data)
}

} // verus!

verus! {

/// A `BRDA` record that is read adds one branch, and marks it taken exactly
/// when its taken field is a number greater than zero: a count of 0, or `-`
/// (never run), is not taken.
pub proof fn brda_taken_exactly_when_positive(s: LcovSection, values: Seq<char>)
    ensures
        read_brda(s, values) matches Ok(t) ==> {
            &&& t.branches.len() == s.branches.len() + 1
            &&& t.branches.last().3 <==> (exists|n: nat| #[trigger] parse_uint(pieces(values, ',')[3], u64::MAX as nat) == Some(n) && n > 0)
        },
{
    reveal_strlit("-");
    let v = pieces(values, ',');
    if read_brda(s, values) is Ok && v[3] == "-"@ {
        assert(!crate::text::is_digit(v[3][0]));
        assert(crate::text::unsigned_part(v[3]) == v[3]);
        assert(parse_uint(v[3], u64::MAX as nat) is None);
    }
}

} // verus!
