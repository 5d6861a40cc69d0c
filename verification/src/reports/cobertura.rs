//! Cobertura XML coverage: source roots, class line records with their branch
//! counters, and the summary attributes that must agree with them.

use vstd::prelude::*;
use crate::text::{digits_value, first_index, is_digit, parse_uint, trim};
use crate::xml::{attribute, has_tag, nearest_tagged, optional_number, within, XmlNode};
use super::{charge, COVERAGE_BUDGET};
use super::coverage_xml::{coverage_only, coverage_records, required_number, CoverageError};
use super::lcov::text_less;

verus! {

/// A branch percentage as `f64::from_str` reads it without an exponent: a sign and
/// decimal digits, or one of the non-finite spellings.
pub enum Rate {
    Finite { negative: bool, whole: Seq<char>, fraction: Seq<char> },
    NotFinite,
}

/// ASCII lower case.
pub open spec fn lower(c: char) -> char {
    if 'A' <= c && c <= 'Z' {
        ((c as u32) + 32) as char
    } else {
        c
    }
}

/// Every character is an ASCII digit.
pub open spec fn all_digits(s: Seq<char>) -> bool {
    forall|i: int| 0 <= i < s.len() ==> is_digit(#[trigger] s[i])
}

/// At most this many fraction digits are read exactly.
pub open spec fn max_fraction() -> nat {
    17
}

/// Read a branch percentage: an optional sign, then `inf`, `infinity` or `nan` in any
/// case, or digits with an optional fraction (some digit present; at most 17
/// fraction digits).
pub open spec fn parse_rate(s: Seq<char>) -> Option<Rate> {
    let negative = s.len() > 0 && s[0] == '-';
    let body = if s.len() > 0 && (s[0] == '+' || s[0] == '-') {
        s.drop_first()
    } else {
        s
    };
    let folded = body.map_values(|c: char| lower(c));
    if folded == "inf"@ || folded == "infinity"@ || folded == "nan"@ {
        Some(Rate::NotFinite)
    } else {
        match first_index(body, '.') {
            None => if body.len() > 0 && all_digits(body) {
                Some(Rate::Finite { negative, whole: body, fraction: seq![] })
            } else {
                None
            },
            Some(d) => {
                let whole = body.subrange(0, d);
                let fraction = body.subrange(d + 1, body.len() as int);
                if whole.len() + fraction.len() > 0 && all_digits(whole) && all_digits(fraction)
                    && fraction.len() <= max_fraction() {
                    Some(Rate::Finite { negative, whole, fraction })
                } else {
                    None
                }
            },
        }
    }
}

/// Ten to the power `n`.
pub open spec fn pow10(n: nat) -> nat
    decreases n,
{
    if n == 0 {
        1
    } else {
        10 * pow10((n - 1) as nat)
    }
}

/// The magnitude of a finite rate scaled by ten to the number of fraction digits.
pub open spec fn scaled(whole: Seq<char>, fraction: Seq<char>) -> nat {
    digits_value(whole) * pow10(fraction.len()) + digits_value(fraction)
}

/// The rate lies in `0..=100`.
pub open spec fn rate_in_range(r: Rate) -> bool {
    match r {
        Rate::NotFinite => false,
        Rate::Finite { negative, whole, fraction } => (!negative || scaled(whole, fraction) == 0)
            && scaled(whole, fraction) <= 100 * pow10(fraction.len()),
    }
}

/// The rate differs by one percentage point or more from `100 * hit / found`.
pub open spec fn rate_far(r: Rate, hit: usize, found: usize) -> bool {
    match r {
        Rate::NotFinite => true,
        Rate::Finite { negative, whole, fraction } => {
            let p = pow10(fraction.len());
            let a = scaled(whole, fraction) * found;
            let b = 100 * hit * p;
            let gap = if a >= b { a - b } else { b - a };
            gap >= found * p
        },
    }
}

/// The first position at which `pat` occurs in `s`.
pub open spec fn find_text(s: Seq<char>, pat: Seq<char>) -> Option<int> {
    if exists|k: int| is_first_text(s, pat, k) {
        Some(choose|k: int| is_first_text(s, pat, k))
    } else {
        None
    }
}

/// `pat` occurs at `k` in `s` and nowhere before.
pub open spec fn is_first_text(s: Seq<char>, pat: Seq<char>, k: int) -> bool {
    occurs_at(s, pat, k) && forall|j: int| 0 <= j < k ==> !occurs_at(s, pat, j)
}

/// `pat` occurs at `k` in `s`.
pub open spec fn occurs_at(s: Seq<char>, pat: Seq<char>, k: int) -> bool {
    0 <= k && k + pat.len() <= s.len() && s.subrange(k, k + pat.len()) == pat
}

} // verus!

verus! {

/// The branch counters (found, hit) of a line flagged as a branch, from its
/// `condition-coverage` of the form `P% (H/F)`; `hits` is the line's hit count.
pub open spec fn condition_counts(cc: Option<Seq<char>>, hits: usize) -> Result<(usize, usize), CoverageError> {
    match cc {
        None => Err(CoverageError::MissingConditionCoverage),
        Some(c) => match find_text(c, "% ("@) {
            None => Err(CoverageError::InvalidConditionCoverage),
            Some(k) => {
                let rate_text = c.subrange(0, k);
                let counts = c.subrange(k + 3, c.len() as int);
                match parse_rate(rate_text) {
                    None => Err(CoverageError::InvalidConditionCoverage),
                    Some(rate) => if counts.len() == 0 || counts.last() != ')' {
                        Err(CoverageError::InvalidConditionCoverage)
                    } else {
                        let inner = counts.drop_last();
                        match first_index(inner, '/') {
                            None => Err(CoverageError::InvalidConditionCoverage),
                            Some(j) => match parse_uint(inner.subrange(0, j), usize::MAX as nat) {
                                None => Err(CoverageError::InvalidConditionCoverage),
                                Some(hit) => match parse_uint(
                                    inner.subrange(j + 1, inner.len() as int),
                                    usize::MAX as nat,
                                ) {
                                    None => Err(CoverageError::InvalidConditionCoverage),
                                    Some(found) => if !rate_in_range(rate) || found == 0 || hit > found || (
                                    hits == 0 && hit > 0) {
                                        Err(CoverageError::InvalidBranchCounters)
                                    } else if rate_far(rate, hit as usize, found as usize) {
                                        Err(CoverageError::PercentageMismatch)
                                    } else {
                                        Ok((found as usize, hit as usize))
                                    },
                                },
                            },
                        }
                    },
                }
            },
        },
    }
}

/// The branch counters (found, hit) of a line record.
pub open spec fn branch_counts(node: XmlNode, hits: usize) -> Result<(usize, usize), CoverageError> {
    let cc = attribute(node, "condition-coverage"@);
    match attribute(node, "branch"@) {
        None => if cc is Some {
            Err(CoverageError::UnflaggedBranch)
        } else {
            Ok((0, 0))
        },
        Some(b) => if b == "false"@ {
            if cc is Some {
                Err(CoverageError::UnflaggedBranch)
            } else {
                Ok((0, 0))
            }
        } else if b == "true"@ {
            condition_counts(cc, hits)
        } else {
            Err(CoverageError::InvalidBranchFlag)
        },
    }
}

/// A `source` listed in a `sources` child of the report root.
pub open spec fn is_source_root(nodes: Seq<XmlNode>, root: int, k: int) -> bool {
    &&& 0 <= k < nodes.len()
    &&& has_tag(nodes[k], "source"@)
    &&& nodes[k].parent matches Some(p) && p < nodes.len() && has_tag(nodes[p as int], "sources"@)
        && (nodes[p as int].parent matches Some(g) && g as int == root)
}

/// The source roots among nodes `0..n` (trimmed, at most 64), and the budget left.
pub open spec fn roots_scan(nodes: Seq<XmlNode>, root: int, budget: int, n: int) -> Result<(Seq<Seq<char>>, int), CoverageError>
    decreases n,
{
    if n <= 0 {
        Ok((seq![], budget))
    } else {
        match roots_scan(nodes, root, budget, n - 1) {
            Err(e) => Err(e),
            Ok((roots, left)) => if !is_source_root(nodes, root, n - 1) {
                Ok((roots, left))
            } else {
                let t = match nodes[n - 1].text {
                    Some(x) => trim(x@),
                    None => seq![],
                };
                if t.len() == 0 {
                    Err(CoverageError::EmptySourceRoot)
                } else if roots.len() == 64 {
                    Err(CoverageError::TooManyRoots)
                } else {
                    match charge(t, left) {
                        Err(e) => Err(CoverageError::Budget(e)),
                        Ok(rest) => Ok((roots.push(t), rest)),
                    }
                }
            },
        }
    }
}

/// The Cobertura report read so far: source file names seen, line records (path, line,
/// hits, branches, covered branches) and the budget left.
pub struct ClassProgress {
    pub inventory: Set<Seq<char>>,
    pub records: Seq<(Seq<char>, usize, u64, usize, usize)>,
    pub budget: int,
}

/// Some record is for (`file`, `line`).
pub open spec fn has_record(records: Seq<(Seq<char>, usize, u64, usize, usize)>, file: Seq<char>, line: usize) -> bool {
    exists|i: int| 0 <= i < records.len() && (#[trigger] records[i]).0 == file && records[i].1 == line
}

/// Read one line record of class file `file`.
pub open spec fn read_class_line(node: XmlNode, file: Seq<char>, st: ClassProgress) -> Result<ClassProgress, CoverageError> {
    match charge(file, st.budget) {
        Err(e) => Err(CoverageError::Budget(e)),
        Ok(left) => match required_number(node, "number"@) {
            Err(e) => Err(e),
            Ok(line) => match required_number(node, "hits"@) {
                Err(e) => Err(e),
                Ok(hits) => if line == 0 || has_record(st.records, file, line) {
                    Err(CoverageError::InvalidLine)
                } else {
                    match branch_counts(node, hits) {
                        Err(e) => Err(e),
                        Ok((found, hit)) => Ok(ClassProgress {
                            inventory: st.inventory,
                            records: st.records.push((file, line, hits as u64, found, hit)),
                            budget: left,
                        }),
                    }
                },
            },
        },
    }
}

/// A `line` in a `lines` child of class `c`.
pub open spec fn is_class_line(nodes: Seq<XmlNode>, c: int, q: int) -> bool {
    &&& has_tag(nodes[q], "line"@)
    &&& nodes[q].parent matches Some(p) && p < nodes.len() && has_tag(nodes[p as int], "lines"@)
        && (nodes[p as int].parent matches Some(g) && g as int == c)
}

/// The line records of class `c` among nodes `0..n`.
pub open spec fn class_lines(nodes: Seq<XmlNode>, c: int, file: Seq<char>, st: ClassProgress, n: int) -> Result<ClassProgress, CoverageError>
    decreases n,
{
    if n <= 0 {
        Ok(st)
    } else {
        match class_lines(nodes, c, file, st, n - 1) {
            Err(e) => Err(e),
            Ok(s) => if is_class_line(nodes, c, n - 1) {
                read_class_line(nodes[n - 1], file, s)
            } else {
                Ok(s)
            },
        }
    }
}

/// The file name of class `c`.
pub open spec fn class_file(node: XmlNode) -> Option<Seq<char>> {
    match attribute(node, "filename"@) {
        Some(f) => if f.len() > 0 {
            Some(f)
        } else {
            None
        },
        None => None,
    }
}

/// The classes within the report among nodes `0..n`, read in document order.
pub open spec fn class_scan(nodes: Seq<XmlNode>, root: int, budget: int, n: int) -> Result<ClassProgress, CoverageError>
    decreases n,
{
    if n <= 0 {
        Ok(ClassProgress { inventory: Set::empty(), records: seq![], budget })
    } else {
        match class_scan(nodes, root, budget, n - 1) {
            Err(e) => Err(e),
            Ok(st) => if !(within(nodes, n - 1, root) && has_tag(nodes[n - 1], "class"@)) {
                Ok(st)
            } else {
                match class_file(nodes[n - 1]) {
                    None => Err(CoverageError::MissingFileName),
                    Some(file) => match charge(file, st.budget) {
                        Err(e) => Err(CoverageError::Budget(e)),
                        Ok(left) => class_lines(
                            nodes,
                            n - 1,
                            file,
                            ClassProgress { inventory: st.inventory.insert(file), records: st.records, budget: left },
                            nodes.len() as int,
                        ),
                    },
                }
            },
        }
    }
}

/// Node `k` sits in a `lines` child of a `class`.
pub open spec fn class_placed(nodes: Seq<XmlNode>, k: int) -> bool {
    nodes[k].parent matches Some(p) && p < nodes.len() && has_tag(nodes[p as int], "lines"@) && (
    nodes[p as int].parent matches Some(c) && c < nodes.len() && has_tag(nodes[c as int], "class"@))
}

/// Node `k` is a `line` within the report, outside any method, that is not a class
/// line record.
pub open spec fn stray_at(nodes: Seq<XmlNode>, root: int, k: int) -> bool {
    within(nodes, k, root) && has_tag(nodes[k], "line"@) && nearest_tagged(nodes, k, "method"@) is None
        && !class_placed(nodes, k)
}

/// Some `line` within the report, outside any method, is not a class line record.
pub open spec fn stray_class_line(nodes: Seq<XmlNode>, root: int) -> bool {
    exists|k: int| 0 <= k < nodes.len() && #[trigger] stray_at(nodes, root, k)
}

/// The number of records with positive hits.
pub open spec fn covered_lines(records: Seq<(Seq<char>, usize, u64, usize, usize)>) -> nat
    decreases records.len(),
{
    if records.len() == 0 {
        0
    } else {
        covered_lines(records.drop_last()) + if records.last().2 > 0 { 1nat } else { 0nat }
    }
}

/// The total branches of the records.
pub open spec fn total_found(records: Seq<(Seq<char>, usize, u64, usize, usize)>) -> nat
    decreases records.len(),
{
    if records.len() == 0 {
        0
    } else {
        total_found(records.drop_last()) + records.last().3 as nat
    }
}

/// The total covered branches of the records.
pub open spec fn total_hit(records: Seq<(Seq<char>, usize, u64, usize, usize)>) -> nat
    decreases records.len(),
{
    if records.len() == 0 {
        0
    } else {
        total_hit(records.drop_last()) + records.last().4 as nat
    }
}

/// Why summary attribute `name` disagrees with `observed`, if it does.
pub open spec fn summary_attr_error(node: XmlNode, name: Seq<char>, observed: nat) -> Option<CoverageError> {
    match attribute(node, name) {
        None => None,
        Some(v) => match parse_uint(v, usize::MAX as nat) {
            None => Some(CoverageError::InvalidNumber),
            Some(x) => if x != observed {
                Some(CoverageError::SummaryMismatch)
            } else {
                None
            },
        },
    }
}

/// Why the report's summary attributes disagree with the records, if they do.
pub open spec fn cobertura_summary_error(node: XmlNode, records: Seq<(Seq<char>, usize, u64, usize, usize)>) -> Option<CoverageError> {
    if total_found(records) > usize::MAX || total_hit(records) > usize::MAX {
        Some(CoverageError::Overflow)
    } else if let Some(e) = summary_attr_error(node, "lines-valid"@, records.len()) {
        Some(e)
    } else if let Some(e) = summary_attr_error(node, "lines-covered"@, covered_lines(records)) {
        Some(e)
    } else if let Some(e) = summary_attr_error(node, "branches-valid"@, total_found(records)) {
        Some(e)
    } else {
        summary_attr_error(node, "branches-covered"@, total_hit(records))
    }
}

/// The texts are in strictly increasing character order.
pub open spec fn strictly_sorted(files: Seq<Seq<char>>) -> bool {
    forall|i: int, j: int| 0 <= i < j < files.len() ==> text_less(#[trigger] files[i], #[trigger] files[j])
}

/// The outcome of reading a Cobertura report whose root element is `root`.
pub open spec fn cobertura_outcome(nodes: Seq<XmlNode>, root: int, res: Result<super::Data, CoverageError>) -> bool {
    match optional_number(nodes[root], "branches-valid"@) {
        Err(_) => res == Err::<super::Data, CoverageError>(CoverageError::InvalidNumber),
        Ok(valid) => match roots_scan(nodes, root, COVERAGE_BUDGET as int, nodes.len() as int) {
            Err(e) => res == Err::<super::Data, CoverageError>(e),
            Ok((roots, left)) => match class_scan(nodes, root, left, nodes.len() as int) {
                Err(e) => res == Err::<super::Data, CoverageError>(e),
                Ok(cp) => if cp.inventory.len() == 0 {
                    res == Err::<super::Data, CoverageError>(CoverageError::NoSources)
                } else if stray_class_line(nodes, root) {
                    res == Err::<super::Data, CoverageError>(CoverageError::LineOutsideSource)
                } else {
                    match cobertura_summary_error(nodes[root], cp.records) {
                        Some(e) => res == Err::<super::Data, CoverageError>(e),
                        None => res matches Ok(d) && coverage_only(d) && d.branch_coverage == (
                        valid matches Some(v) && v > 0) && super::texts(d.coverage_roots@) == roots
                            && strictly_sorted(super::texts(d.coverage_files@)) && super::texts(
                            d.coverage_files@,
                        ).to_set() == cp.inventory && coverage_records(d.coverage@) == cp.records,
                    }
                },
            },
        },
    }
}

} // verus!

verus! {

/// A branch percentage as read.
enum Percent {
    Finite { negative: bool, whole: Vec<char>, fraction: Vec<char> },
    NotFinite,
}

spec fn percent_view(p: Percent) -> Rate {
    match p {
        Percent::Finite { negative, whole, fraction } => Rate::Finite {
            negative,
            whole: whole@,
            fraction: fraction@,
        },
        Percent::NotFinite => Rate::NotFinite,
    }
}

fn digits_only(s: &[char]) -> (res: bool)
    ensures
        res == all_digits(s@),
{
    let mut i: usize = 0;
    while i < s.len()
        invariant
            0 <= i <= s@.len(),
            forall|j: int| 0 <= j < i ==> is_digit(#[trigger] s@[j]),
        decreases s@.len() - i,
    {
        if !('0' <= s[i] && s[i] <= '9') {
            assert(!is_digit(s@[i as int]));
            return false;
        }
        i = i + 1;
    }
    true
}

fn lower_exec(c: char) -> (res: char)
    ensures
        res == lower(c),
{
    if 'A' <= c && c <= 'Z' {
        let u = c as u32 + 32;
        assert(u <= 0x7f);
        proof {
            assert(u < 0xD800);
        }
        char_of(u)
    } else {
        c
    }
}

/// The character with an ASCII code.
fn char_of(u: u32) -> (res: char)
    requires
        u < 0x80,
    ensures
        res == u as char,
{
    let b = u as u8;
    b as char
}

fn folded_is(s: &[char], lit: &str) -> (res: bool)
    ensures
        res == (s@.map_values(|c: char| lower(c)) == lit@),
{
    let l = crate::text::chars_of(lit);
    if s.len() != l.len() {
        return false;
    }
    let mut i: usize = 0;
    while i < s.len()
        invariant
            0 <= i <= s@.len(),
            s@.len() == l@.len(),
            l@ == lit@,
            forall|j: int| 0 <= j < i ==> lower(s@[j]) == l@[j],
        decreases s@.len() - i,
    {
        if lower_exec(s[i]) != l[i] {
            assert(s@.map_values(|c: char| lower(c))[i as int] != l@[i as int]);
            return false;
        }
        i = i + 1;
    }
    assert(s@.map_values(|c: char| lower(c)) =~= l@);
    true
}

fn parse_rate_exec(s: &[char]) -> (res: Option<Percent>)
    ensures
        res matches Some(p) ==> parse_rate(s@) == Some(percent_view(p)),
        res is None ==> parse_rate(s@) is None,
{
    let n = s.len();
    let negative = n > 0 && s[0] == '-';
    let start: usize = if n > 0 && (s[0] == '+' || s[0] == '-') { 1 } else { 0 };
    let body = crate::text::copy_range(s, start, n);
    proof {
        if n > 0 && (s@[0] == '+' || s@[0] == '-') {
            assert(body@ =~= s@.drop_first());
        } else {
            assert(body@ =~= s@);
        }
    }
    if folded_is(&body, "inf") || folded_is(&body, "infinity") || folded_is(&body, "nan") {
        return Some(Percent::NotFinite);
    }
    let m = body.len();
    match crate::text::find_char(&body, 0, '.') {
        None => {
            assert(body@.subrange(0, m as int) =~= body@);
            if m > 0 && digits_only(&body) {
                Some(Percent::Finite { negative, whole: body, fraction: Vec::new() })
            } else {
                None
            }
        },
        Some(d) => {
            assert(body@.subrange(0, m as int) =~= body@);
            let whole = crate::text::copy_range(&body, 0, d);
            let fraction = crate::text::copy_range(&body, d + 1, m);
            if whole.len() + fraction.len() > 0 && digits_only(&whole) && digits_only(&fraction)
                && fraction.len() <= 17 {
                Some(Percent::Finite { negative, whole, fraction })
            } else {
                None
            }
        },
    }
}

proof fn digits_below_power(s: Seq<char>)
    requires
        all_digits(s),
    ensures
        digits_value(s) < pow10(s.len()),
    decreases s.len(),
{
    if s.len() > 0 {
        assert forall|i: int| 0 <= i < s.drop_last().len() implies is_digit(#[trigger] s.drop_last()[i]) by {
            assert(s.drop_last()[i] == s[i]);
        }
        digits_below_power(s.drop_last());
        assert(is_digit(s[s.len() - 1]));
        let d = (s.last() as nat - '0' as nat) as nat;
        assert(d <= 9);
        assert(digits_value(s) == digits_value(s.drop_last()) * 10 + d);
        assert(pow10(s.len()) == 10 * pow10(s.drop_last().len()));
        assert(digits_value(s.drop_last()) * 10 + d < 10 * pow10(s.drop_last().len())) by (nonlinear_arith)
            requires
                digits_value(s.drop_last()) < pow10(s.drop_last().len()),
                d <= 9,
        ;
    }
}

proof fn pow10_bound(n: nat)
    requires
        n <= 17,
    ensures
        1 <= pow10(n) <= 100000000000000000,
    decreases 17 - n,
{
    if n < 17 {
        pow10_bound(n + 1);
        assert(pow10(n + 1) == 10 * pow10(n));
    } else {
        reveal_with_fuel(pow10, 18);
    }
}

/// The value of digit string `s`, or `None` when it exceeds 100.
fn small_value(s: &[char]) -> (res: Option<u128>)
    requires
        all_digits(s@),
    ensures
        res matches Some(v) ==> v == digits_value(s@) && v <= 100,
        res is None ==> digits_value(s@) > 100,
{
    let mut v: u128 = 0;
    let mut i: usize = 0;
    assert(s@.subrange(0, 0) =~= Seq::<char>::empty());
    while i < s.len()
        invariant
            0 <= i <= s@.len(),
            all_digits(s@),
            v == digits_value(s@.subrange(0, i as int)),
            v <= 100,
        decreases s@.len() - i,
    {
        assert(s@.subrange(0, i + 1).drop_last() =~= s@.subrange(0, i as int));
        assert(is_digit(s@[i as int]));
        let d = (s[i] as u32 - '0' as u32) as u128;
        let next = v * 10 + d;
        if next > 100 {
            proof {
                crate::text::lemma_digits_monotone(s@, i + 1);
            }
            return None;
        }
        v = next;
        i = i + 1;
    }
    assert(s@.subrange(0, i as int) =~= s@);
    Some(v)
}

/// The value of a digit string of at most 17 digits.
fn fraction_value(s: &[char]) -> (res: u128)
    requires
        all_digits(s@),
        s@.len() <= 17,
    ensures
        res == digits_value(s@),
        res < pow10(s@.len()),
{
    proof {
        digits_below_power(s@);
        pow10_bound(s@.len());
    }
    let mut v: u128 = 0;
    let mut i: usize = 0;
    assert(s@.subrange(0, 0) =~= Seq::<char>::empty());
    while i < s.len()
        invariant
            0 <= i <= s@.len(),
            s@.len() <= 17,
            all_digits(s@),
            v == digits_value(s@.subrange(0, i as int)),
            digits_value(s@) < pow10(s@.len()),
            pow10(s@.len()) <= 100000000000000000,
        decreases s@.len() - i,
    {
        assert(s@.subrange(0, i + 1).drop_last() =~= s@.subrange(0, i as int));
        assert(is_digit(s@[i as int]));
        proof {
            crate::text::lemma_digits_monotone(s@, i + 1);
        }
        let d = (s[i] as u32 - '0' as u32) as u128;
        v = v * 10 + d;
        i = i + 1;
    }
    assert(s@.subrange(0, i as int) =~= s@);
    v
}

fn power_of_ten(n: usize) -> (res: u128)
    requires
        n <= 17,
    ensures
        res == pow10(n as nat),
{
    let mut p: u128 = 1;
    let mut i: usize = 0;
    while i < n
        invariant
            0 <= i <= n <= 17,
            p == pow10(i as nat),
        decreases n - i,
    {
        proof {
            pow10_bound((i + 1) as nat);
        }
        p = p * 10;
        i = i + 1;
    }
    p
}

/// Whether the rate lies in `0..=100`, and if so its scaled magnitude and scale.
fn rate_range(r: &Percent) -> (res: Option<(u128, u128)>)
    requires
        percent_view(*r) matches Rate::Finite { fraction, .. } ==> fraction.len() <= 17,
        percent_view(*r) matches Rate::Finite { whole, fraction, .. } ==> all_digits(whole) && all_digits(fraction),
    ensures
        res is Some == rate_in_range(percent_view(*r)),
        res matches Some((v, p)) ==> (percent_view(*r) matches Rate::Finite { whole, fraction, .. } && v == scaled(whole, fraction) && p == pow10(fraction.len())),
{
    match r {
        Percent::NotFinite => None,
        Percent::Finite { negative, whole, fraction } => {
            let p = power_of_ten(fraction.len());
            let f = fraction_value(fraction);
            proof {
                pow10_bound(fraction@.len());
            }
            match small_value(whole) {
                None => {
                    assert(scaled(whole@, fraction@) > 100 * pow10(fraction@.len())) by (nonlinear_arith)
                        requires
                            digits_value(whole@) > 100,
                            scaled(whole@, fraction@) == digits_value(whole@) * pow10(fraction@.len()) + digits_value(fraction@),
                            pow10(fraction@.len()) >= 1,
                    ;
                    None
                },
                Some(w) => {
                    assert(w * p + f <= 101 * 100000000000000000) by (nonlinear_arith)
                        requires
                            w <= 100,
                            p <= 100000000000000000,
                            f < p,
                    ;
                    let v = w * p + f;
                    assert(v == scaled(whole@, fraction@));
                    if (*negative && v != 0) || v > 100 * p {
                        None
                    } else {
                        Some((v, p))
                    }
                },
            }
        },
    }
}

/// Whether the rate differs by a percentage point or more from `100 * hit / found`.
fn rate_is_far(v: u128, p: u128, hit: usize, found: usize, Ghost(r): Ghost<Rate>) -> (res: bool)
    requires
        r matches Rate::Finite { whole, fraction, .. } && v == scaled(whole, fraction) && p == pow10(fraction.len()),
        1 <= p <= 100000000000000000,
        v <= 100 * p,
    ensures
        res == rate_far(r, hit, found),
{
    assert(v * (found as u128) <= 340282366920938463463374607431768211455u128) by (nonlinear_arith)
        requires
            v <= 100 * p,
            p <= 100000000000000000,
            (found as u128) <= 18446744073709551615u128,
    ;
    assert(100 * (hit as u128) * p <= 340282366920938463463374607431768211455u128) by (nonlinear_arith)
        requires
            p <= 100000000000000000,
            (hit as u128) <= 18446744073709551615u128,
    ;
    assert((found as u128) * p <= 340282366920938463463374607431768211455u128) by (nonlinear_arith)
        requires
            p <= 100000000000000000,
            (found as u128) <= 18446744073709551615u128,
    ;
    let a = v * (found as u128);
    let b = 100 * (hit as u128) * p;
    let gap = if a >= b { a - b } else { b - a };
    gap >= (found as u128) * p
}

} // verus!

verus! {

/// The first position at which the characters of `pat` occur in `s`.
fn find_text_exec(s: &[char], pat: &[char]) -> (res: Option<usize>)
    ensures
        res matches Some(k) ==> find_text(s@, pat@) == Some(k as int) && k + pat@.len() <= s@.len(),
        res is None ==> find_text(s@, pat@) is None,
{
    let n = s.len();
    let m = pat.len();
    if m > n {
        assert forall|c: int| !is_first_text(s@, pat@, c) by {}
        return None;
    }
    let mut k: usize = 0;
    while k <= n - m
        invariant
            n == s@.len(),
            m == pat@.len(),
            m <= n,
            k <= n - m + 1,
            forall|j: int| 0 <= j < k ==> !occurs_at(s@, pat@, j),
        decreases n - k,
    {
        let mut i: usize = 0;
        let mut same = true;
        while i < m
            invariant
                0 <= i <= m,
                k + m <= n,
                n == s@.len(),
                m == pat@.len(),
                same == forall|t: int| 0 <= t < i ==> s@[k + t] == pat@[t],
            decreases m - i,
        {
            if s[k + i] != pat[i] {
                same = false;
            }
            i = i + 1;
        }
        if same {
            assert(s@.subrange(k as int, k + m) =~= pat@);
            assert(is_first_text(s@, pat@, k as int));
            let ghost c = choose|c: int| is_first_text(s@, pat@, c);
            assert(c == k) by {
                if c < k {
                } else if c > k {
                    assert(occurs_at(s@, pat@, k as int));
                }
            }
            return Some(k);
        }
        assert(!occurs_at(s@, pat@, k as int)) by {
            let t = choose|t: int| 0 <= t < m && s@[k + t] != pat@[t];
            if occurs_at(s@, pat@, k as int) {
                assert(s@.subrange(k as int, k + m)[t] == s@[k + t]);
            }
        }
        k = k + 1;
    }
    assert forall|c: int| !is_first_text(s@, pat@, c) by {
        if is_first_text(s@, pat@, c) {
            assert(c + m <= n);
            assert(c < k);
        }
    }
    None
}

fn condition_exec(cc: Option<&String>, hits: usize) -> (res: Result<(usize, usize), CoverageError>)
    ensures
        res == condition_counts(
            match cc {
                Some(c) => Some(c@),
                None => None,
            },
            hits,
        ),
{
    let c = match cc {
        None => return Err(CoverageError::MissingConditionCoverage),
        Some(c) => crate::text::chars_of(c.as_str()),
    };
    let pat = crate::text::chars_of("% (");
    proof {
        reveal_strlit("% (");
    }
    let n = c.len();
    let k = match find_text_exec(&c, &pat) {
        None => return Err(CoverageError::InvalidConditionCoverage),
        Some(k) => k,
    };
    let rate_text = crate::text::copy_range(&c, 0, k);
    let counts = crate::text::copy_range(&c, k + 3, n);
    let rate = match parse_rate_exec(&rate_text) {
        None => return Err(CoverageError::InvalidConditionCoverage),
        Some(r) => r,
    };
    let cl = counts.len();
    if cl == 0 || counts[cl - 1] != ')' {
        return Err(CoverageError::InvalidConditionCoverage);
    }
    let inner = crate::text::copy_range(&counts, 0, cl - 1);
    assert(inner@ =~= counts@.drop_last());
    let il = inner.len();
    let j = match crate::text::find_char(&inner, 0, '/') {
        None => {
            assert(inner@.subrange(0, il as int) =~= inner@);
            return Err(CoverageError::InvalidConditionCoverage);
        },
        Some(j) => j,
    };
    assert(inner@.subrange(0, il as int) =~= inner@);
    let hit_text = crate::text::copy_range(&inner, 0, j);
    let found_text = crate::text::copy_range(&inner, j + 1, il);
    let hit = match crate::text::parse_usize(&hit_text) {
        None => return Err(CoverageError::InvalidConditionCoverage),
        Some(h) => h,
    };
    let found = match crate::text::parse_usize(&found_text) {
        None => return Err(CoverageError::InvalidConditionCoverage),
        Some(f) => f,
    };
    let range = rate_range(&rate);
    if range.is_none() || found == 0 || hit > found || (hits == 0 && hit > 0) {
        return Err(CoverageError::InvalidBranchCounters);
    }
    let (v, p) = match range {
        Some(x) => x,
        None => return Err(CoverageError::InvalidBranchCounters),
    };
    proof {
        if let Rate::Finite { fraction, .. } = percent_view(rate) {
            pow10_bound(fraction.len());
        }
    }
    if rate_is_far(v, p, hit, found, Ghost(percent_view(rate))) {
        return Err(CoverageError::PercentageMismatch);
    }
    Ok((found, hit))
}

/// The branch counters (found, hit) of a line record with `hits` hits.
fn branch_exec(node: &XmlNode, hits: usize) -> (res: Result<(usize, usize), CoverageError>)
    ensures
        res == branch_counts(*node, hits),
{
    let cc = crate::xml::attr(node, "condition-coverage");
    match crate::xml::attr(node, "branch") {
        None => if cc.is_some() {
            Err(CoverageError::UnflaggedBranch)
        } else {
            Ok((0, 0))
        },
        Some(b) => {
            let bc = crate::text::chars_of(b.as_str());
            if crate::text::text_is(&bc, "false") {
                if cc.is_some() {
                    Err(CoverageError::UnflaggedBranch)
                } else {
                    Ok((0, 0))
                }
            } else if crate::text::text_is(&bc, "true") {
                condition_exec(cc, hits)
            } else {
                Err(CoverageError::InvalidBranchFlag)
            }
        },
    }
}

} // verus!

verus! {

/// Whether `name` comes strictly before `f` in character order.
fn name_before(name: &String, f: &Vec<char>) -> (res: bool)
    ensures
        res == text_less(name@, f@),
{
    let c = crate::text::chars_of(name.as_str());
    super::lcov::text_lt(&c, f)
}

/// Add `f` to the strictly sorted file names, unless it is there.
fn insert_file(inv: &mut Vec<String>, f: &String)
    requires
        strictly_sorted(super::texts(old(inv)@)),
    ensures
        strictly_sorted(super::texts(final(inv)@)),
        super::texts(final(inv)@).to_set() == super::texts(old(inv)@).to_set().insert(f@),
{
    let fc = crate::text::chars_of(f.as_str());
    let ghost old_t = super::texts(inv@);
    let mut p: usize = 0;
    while p < inv.len() && name_before(&inv[p], &fc)
        invariant
            0 <= p <= inv@.len(),
            old_t == super::texts(inv@),
            fc@ == f@,
            forall|i: int| 0 <= i < p ==> text_less(#[trigger] old_t[i], f@),
        decreases inv@.len() - p,
    {
        p = p + 1;
    }
    if p < inv.len() {
        let c = crate::text::chars_of(inv[p].as_str());
        if crate::text::chars_equal(&c, &fc) {
            assert(old_t[p as int] == f@);
            assert(old_t.to_set().insert(f@) =~= old_t.to_set());
            return;
        }
    }
    proof {
        if p < old_t.len() {
            super::lcov::text_less_total(old_t[p as int], f@);
        }
    }
    let g = f.clone();
    inv.insert(p, g);
    let ghost new_t = super::texts(inv@);
    assert(new_t =~= old_t.insert(p as int, f@));
    assert forall|i: int, j: int| 0 <= i < j < new_t.len() implies text_less(#[trigger] new_t[i], #[trigger] new_t[j]) by {
        if j < p {
        } else if j == p {
        } else if i == p {
            if j - 1 > p {
                super::lcov::text_less_transitive(f@, old_t[p as int], old_t[j - 1]);
            }
        } else if i < p {
        } else {
        }
    }
    assert forall|x: Seq<char>| new_t.to_set().contains(x) == old_t.to_set().insert(f@).contains(x) by {
        if new_t.contains(x) {
            let k = choose|k: int| 0 <= k < new_t.len() && new_t[k] == x;
            if k < p {
                assert(old_t[k] == x);
            } else if k > p {
                assert(old_t[k - 1] == x);
            }
        }
        if old_t.contains(x) {
            let k = choose|k: int| 0 <= k < old_t.len() && old_t[k] == x;
            if k < p {
                assert(new_t[k] == x);
            } else {
                assert(new_t[k + 1] == x);
            }
        }
        if x == f@ {
            assert(new_t[p as int] == x);
        }
    }
    assert(new_t.to_set() =~= old_t.to_set().insert(f@));
}

} // verus!

verus! {

proof fn roots_scan_error_persists(nodes: Seq<XmlNode>, root: int, budget: int, m: int, n: int)
    requires
        m <= n,
        roots_scan(nodes, root, budget, m) is Err,
    ensures
        roots_scan(nodes, root, budget, n) == roots_scan(nodes, root, budget, m),
    decreases n - m,
{
    if m < n {
        roots_scan_error_persists(nodes, root, budget, m, n - 1);
    }
}

/// The report's source roots, trimmed, and the budget they leave.
fn read_roots(nodes: &Vec<XmlNode>, root: usize, budget: &mut usize) -> (res: Result<Vec<String>, CoverageError>)
    ensures
        match roots_scan(nodes@, root as int, *old(budget) as int, nodes@.len() as int) {
            Ok((roots, left)) => res matches Ok(v) && super::texts(v@) == roots && *final(budget) == left,
            Err(e) => res == Err::<Vec<String>, CoverageError>(e),
        },
{
    let ghost start = *budget as int;
    let mut roots: Vec<String> = Vec::new();
    assert(super::texts(roots@) =~= Seq::<Seq<char>>::empty());
    let mut k: usize = 0;
    while k < nodes.len()
        invariant
            0 <= k <= nodes@.len(),
            start == *old(budget) as int,
            roots_scan(nodes@, root as int, start, k as int) == Ok::<(Seq<Seq<char>>, int), CoverageError>(
                (super::texts(roots@), *budget as int),
            ),
        decreases nodes@.len() - k,
    {
        let node = &nodes[k];
        let listed = crate::xml::is_tag(node, "source") && match node.parent {
            Some(p) => p < nodes.len() && crate::xml::is_tag(&nodes[p], "sources") && nodes[p].parent
                == Some(root),
            None => false,
        };
        if listed {
            let t = match &node.text {
                Some(x) => {
                    let c = crate::text::chars_of(x.as_str());
                    crate::text::trimmed(&c)
                },
                None => Vec::new(),
            };
            if t.len() == 0 {
                proof { roots_scan_error_persists(nodes@, root as int, start, k + 1, nodes@.len() as int); }
                return Err(CoverageError::EmptySourceRoot);
            }
            if roots.len() == 64 {
                proof { roots_scan_error_persists(nodes@, root as int, start, k + 1, nodes@.len() as int); }
                return Err(CoverageError::TooManyRoots);
            }
            let text = crate::text::string_of(&t);
            match super::coverage_budget(budget, text.as_str()) {
                Err(e) => {
                    proof { roots_scan_error_persists(nodes@, root as int, start, k + 1, nodes@.len() as int); }
                    return Err(CoverageError::Budget(e));
                },
                Ok(()) => {},
            }
            let ghost before = roots@;
            roots.push(text);
            assert(super::texts(roots@) =~= super::texts(before).push(t@));
        }
        k = k + 1;
    }
    Ok(roots)
}

/// The class records read so far.
pub open spec fn class_progress(inventory: Set<Seq<char>>, coverage: Seq<super::CoverageLine>, budget: int) -> ClassProgress {
    ClassProgress { inventory, records: coverage_records(coverage), budget }
}

fn has_record_exec(coverage: &Vec<super::CoverageLine>, file: &Vec<char>, line: usize) -> (res: bool)
    ensures
        res == has_record(coverage_records(coverage@), file@, line),
{
    let ghost r = coverage_records(coverage@);
    let mut i: usize = 0;
    while i < coverage.len()
        invariant
            0 <= i <= coverage@.len(),
            r == coverage_records(coverage@),
            forall|k: int| 0 <= k < i ==> !((#[trigger] r[k]).0 == file@ && r[k].1 == line),
        decreases coverage@.len() - i,
    {
        let c = crate::text::chars_of(coverage[i].file.as_str());
        if coverage[i].line == line && crate::text::chars_equal(&c, file) {
            assert(r[i as int].0 == file@ && r[i as int].1 == line);
            return true;
        }
        i = i + 1;
    }
    false
}

fn read_class_line_exec(
    node: &XmlNode,
    file: &String,
    budget: &mut usize,
    coverage: &mut Vec<super::CoverageLine>,
    Ghost(inventory): Ghost<Set<Seq<char>>>,
) -> (res: Result<(), CoverageError>)
    requires
        forall|i: int| 0 <= i < old(coverage)@.len() ==> !(#[trigger] old(coverage)@[i]).excluded,
    ensures
        match read_class_line(*node, file@, class_progress(inventory, old(coverage)@, *old(budget) as int)) {
            Ok(p) => res is Ok && p == class_progress(inventory, final(coverage)@, *final(budget) as int)
                && forall|i: int| 0 <= i < final(coverage)@.len() ==> !(#[trigger] final(coverage)@[i]).excluded,
            Err(e) => res == Err::<(), CoverageError>(e),
        },
{
    match super::coverage_budget(budget, file.as_str()) {
        Err(e) => return Err(CoverageError::Budget(e)),
        Ok(()) => {},
    }
    let line = match super::coverage_xml::required(node, "number") {
        Err(e) => return Err(e),
        Ok(v) => v,
    };
    let hits = match super::coverage_xml::required(node, "hits") {
        Err(e) => return Err(e),
        Ok(v) => v,
    };
    let fc = crate::text::chars_of(file.as_str());
    if line == 0 || has_record_exec(coverage, &fc, line) {
        return Err(CoverageError::InvalidLine);
    }
    let (found, hit) = match branch_exec(node, hits) {
        Err(e) => return Err(e),
        Ok(x) => x,
    };
    let ghost before = coverage@;
    coverage.push(super::CoverageLine {
        file: file.clone(),
        line,
        hits: hits as u64,
        branches_found: found,
        branches_hit: hit,
        excluded: false,
    });
    assert(coverage_records(coverage@) =~= coverage_records(before).push((file@, line, hits as u64, found, hit)));
    Ok(())
}

} // verus!

verus! {

proof fn class_lines_error_persists(nodes: Seq<XmlNode>, c: int, file: Seq<char>, st: ClassProgress, m: int, n: int)
    requires
        m <= n,
        class_lines(nodes, c, file, st, m) is Err,
    ensures
        class_lines(nodes, c, file, st, n) == class_lines(nodes, c, file, st, m),
    decreases n - m,
{
    if m < n {
        class_lines_error_persists(nodes, c, file, st, m, n - 1);
    }
}

proof fn class_scan_error_persists(nodes: Seq<XmlNode>, root: int, budget: int, m: int, n: int)
    requires
        m <= n,
        class_scan(nodes, root, budget, m) is Err,
    ensures
        class_scan(nodes, root, budget, n) == class_scan(nodes, root, budget, m),
    decreases n - m,
{
    if m < n {
        class_scan_error_persists(nodes, root, budget, m, n - 1);
    }
}

/// Read the line records of class `c`.
fn read_class_lines(
    nodes: &Vec<XmlNode>,
    c: usize,
    file: &String,
    budget: &mut usize,
    coverage: &mut Vec<super::CoverageLine>,
    Ghost(inventory): Ghost<Set<Seq<char>>>,
) -> (res: Result<(), CoverageError>)
    requires
        forall|i: int| 0 <= i < old(coverage)@.len() ==> !(#[trigger] old(coverage)@[i]).excluded,
    ensures
        match class_lines(nodes@, c as int, file@, class_progress(inventory, old(coverage)@, *old(budget) as int), nodes@.len() as int) {
            Ok(p) => res is Ok && p == class_progress(inventory, final(coverage)@, *final(budget) as int)
                && forall|i: int| 0 <= i < final(coverage)@.len() ==> !(#[trigger] final(coverage)@[i]).excluded,
            Err(e) => res == Err::<(), CoverageError>(e),
        },
{
    let ghost st0 = class_progress(inventory, coverage@, *budget as int);
    let mut q: usize = 0;
    while q < nodes.len()
        invariant
            0 <= q <= nodes@.len(),
            st0 == class_progress(inventory, old(coverage)@, *old(budget) as int),
            class_lines(nodes@, c as int, file@, st0, q as int) == Ok::<ClassProgress, CoverageError>(
                class_progress(inventory, coverage@, *budget as int),
            ),
            forall|i: int| 0 <= i < coverage@.len() ==> !(#[trigger] coverage@[i]).excluded,
        decreases nodes@.len() - q,
    {
        let node = &nodes[q];
        let listed = crate::xml::is_tag(node, "line") && match node.parent {
            Some(p) => p < nodes.len() && crate::xml::is_tag(&nodes[p], "lines") && nodes[p].parent == Some(c),
            None => false,
        };
        if listed {
            match read_class_line_exec(node, file, budget, coverage, Ghost(inventory)) {
                Err(e) => {
                    proof { class_lines_error_persists(nodes@, c as int, file@, st0, q + 1, nodes@.len() as int); }
                    return Err(e);
                },
                Ok(()) => {},
            }
        }
        q = q + 1;
    }
    Ok(())
}

fn placed(nodes: &Vec<XmlNode>, k: usize) -> (res: bool)
    requires
        k < nodes@.len(),
    ensures
        res == class_placed(nodes@, k as int),
{
    let n = nodes.len();
    match nodes[k].parent {
        Some(p) => p < n && crate::xml::is_tag(&nodes[p], "lines") && match nodes[p].parent {
            Some(c) => c < n && crate::xml::is_tag(&nodes[c], "class"),
            None => false,
        },
        None => false,
    }
}

/// Whether some `line` within the report, outside any method, is not a class line record.
fn has_stray_line(nodes: &Vec<XmlNode>, root: usize) -> (res: bool)
    ensures
        res == stray_class_line(nodes@, root as int),
{
    let n = nodes.len();
    let mut k: usize = 0;
    while k < n
        invariant
            0 <= k <= n,
            n == nodes@.len(),
            forall|q: int| 0 <= q < k ==> !#[trigger] stray_at(nodes@, root as int, q),
        decreases n - k,
    {
        if crate::xml::is_within(nodes, k, root) && crate::xml::is_tag(&nodes[k], "line") && crate::xml::nearest(
            nodes,
            k,
            "method",
        ).is_none() && !placed(nodes, k) {
            assert(stray_at(nodes@, root as int, k as int));
            return true;
        }
        k = k + 1;
    }
    false
}

/// The summary attribute `name` of `node` agrees with `observed`.
fn check_summary_attr(node: &XmlNode, name: &str, observed: usize) -> (res: Option<CoverageError>)
    ensures
        res == summary_attr_error(*node, name@, observed as nat),
{
    match crate::xml::attr(node, name) {
        None => None,
        Some(v) => match crate::text::parse_usize_str(v) {
            None => Some(CoverageError::InvalidNumber),
            Some(x) => if x != observed {
                Some(CoverageError::SummaryMismatch)
            } else {
                None
            },
        },
    }
}

/// Why the report's summary attributes disagree with the records, if they do.
fn check_summaries(node: &XmlNode, coverage: &Vec<super::CoverageLine>) -> (res: Option<CoverageError>)
    ensures
        res == cobertura_summary_error(*node, coverage_records(coverage@)),
{
    let ghost r = coverage_records(coverage@);
    let mut covered: usize = 0;
    let mut found: usize = 0;
    let mut hit: usize = 0;
    let mut found_overflow = false;
    let mut hit_overflow = false;
    let mut i: usize = 0;
    assert(r.subrange(0, 0) =~= Seq::<(Seq<char>, usize, u64, usize, usize)>::empty());
    while i < coverage.len()
        invariant
            0 <= i <= coverage@.len(),
            r == coverage_records(coverage@),
            covered <= i,
            covered == covered_lines(r.subrange(0, i as int)),
            found_overflow == (total_found(r.subrange(0, i as int)) > usize::MAX),
            !found_overflow ==> found == total_found(r.subrange(0, i as int)),
            hit_overflow == (total_hit(r.subrange(0, i as int)) > usize::MAX),
            !hit_overflow ==> hit == total_hit(r.subrange(0, i as int)),
        decreases coverage@.len() - i,
    {
        let c = &coverage[i];
        assert(r.subrange(0, i + 1).drop_last() =~= r.subrange(0, i as int));
        assert(r.subrange(0, i + 1).last() == r[i as int]);
        if c.hits > 0 {
            covered = covered + 1;
        }
        if !found_overflow {
            if found > usize::MAX - c.branches_found {
                found_overflow = true;
            } else {
                found = found + c.branches_found;
            }
        }
        if !hit_overflow {
            if hit > usize::MAX - c.branches_hit {
                hit_overflow = true;
            } else {
                hit = hit + c.branches_hit;
            }
        }
        i = i + 1;
    }
    assert(r.subrange(0, i as int) =~= r);
    if found_overflow || hit_overflow {
        return Some(CoverageError::Overflow);
    }
    if let Some(e) = check_summary_attr(node, "lines-valid", coverage.len()) {
        return Some(e);
    }
    if let Some(e) = check_summary_attr(node, "lines-covered", covered) {
        return Some(e);
    }
    if let Some(e) = check_summary_attr(node, "branches-valid", found) {
        return Some(e);
    }
    check_summary_attr(node, "branches-covered", hit)
}

} // verus!

verus! {

/// Read a Cobertura report whose root element is `root`: source roots, class line
/// records with their branch counters, and summary attributes that must agree.
pub fn cobertura(nodes: &Vec<XmlNode>, root: usize) -> (res: Result<super::Data, CoverageError>)
    requires
        root < nodes@.len(),
    ensures
        cobertura_outcome(nodes@, root as int, res),
{
    let valid = match crate::xml::number_attr(&nodes[root], "branches-valid") {
        Err(()) => return Err(CoverageError::InvalidNumber),
        Ok(v) => v,
    };
    let branch_coverage = match valid {
        Some(c) => c > 0,
        None => false,
    };
    let mut budget: usize = COVERAGE_BUDGET;
    let roots = match read_roots(nodes, root, &mut budget) {
        Err(e) => return Err(e),
        Ok(r) => r,
    };
    let ghost left = budget as int;
    let mut inventory: Vec<String> = Vec::new();
    let ghost mut inv_set: Set<Seq<char>> = Set::empty();
    let mut coverage: Vec<super::CoverageLine> = Vec::new();
    assert(super::texts(inventory@) =~= Seq::<Seq<char>>::empty());
    assert(Seq::<Seq<char>>::empty().to_set() =~= Set::<Seq<char>>::empty());
    assert(coverage_records(coverage@) =~= Seq::<(Seq<char>, usize, u64, usize, usize)>::empty());
    let n = nodes.len();
    let mut j: usize = 0;
    while j < n
        invariant
            0 <= j <= n,
            n == nodes@.len(),
            root < n,
            optional_number(nodes@[root as int], "branches-valid"@) == Ok::<Option<usize>, ()>(valid),
            roots_scan(nodes@, root as int, COVERAGE_BUDGET as int, n as int) == Ok::<(Seq<Seq<char>>, int), CoverageError>(
                (super::texts(roots@), left),
            ),
            class_scan(nodes@, root as int, left, j as int) == Ok::<ClassProgress, CoverageError>(
                class_progress(inv_set, coverage@, budget as int),
            ),
            strictly_sorted(super::texts(inventory@)),
            super::texts(inventory@).to_set() == inv_set,
            forall|i: int| 0 <= i < coverage@.len() ==> !(#[trigger] coverage@[i]).excluded,
        decreases n - j,
    {
        if crate::xml::is_within(nodes, j, root) && crate::xml::is_tag(&nodes[j], "class") {
            let file = match crate::xml::attr(&nodes[j], "filename") {
                None => {
                    proof { class_scan_error_persists(nodes@, root as int, left, j + 1, n as int); }
                    return Err(CoverageError::MissingFileName);
                },
                Some(f) => f.clone(),
            };
            let fc = crate::text::chars_of(file.as_str());
            if fc.len() == 0 {
                proof { class_scan_error_persists(nodes@, root as int, left, j + 1, n as int); }
                return Err(CoverageError::MissingFileName);
            }
            match super::coverage_budget(&mut budget, file.as_str()) {
                Err(e) => {
                    proof { class_scan_error_persists(nodes@, root as int, left, j + 1, n as int); }
                    return Err(CoverageError::Budget(e));
                },
                Ok(()) => {},
            }
            insert_file(&mut inventory, &file);
            proof {
                inv_set = inv_set.insert(file@);
            }
            match read_class_lines(nodes, j, &file, &mut budget, &mut coverage, Ghost(inv_set)) {
                Err(e) => {
                    proof { class_scan_error_persists(nodes@, root as int, left, j + 1, n as int); }
                    return Err(e);
                },
                Ok(()) => {},
            }
        }
        j = j + 1;
    }
    proof {
        super::texts(inventory@).lemma_cardinality_of_empty_set_is_0();
    }
    if inventory.len() == 0 {
        return Err(CoverageError::NoSources);
    }
    if has_stray_line(nodes, root) {
        return Err(CoverageError::LineOutsideSource);
    }
    if let Some(e) = check_summaries(&nodes[root], &coverage) {
        return Err(e);
    }
    Ok(super::Data {
        issues: Vec::new(),
        tests: None,
        coverage,
        coverage_files: inventory,
        coverage_roots: roots,
        coverage_producer: None,
        branch_coverage,
        affected_files: None,
        sarif_runs: Vec::new(),
    })
}

} // verus!
