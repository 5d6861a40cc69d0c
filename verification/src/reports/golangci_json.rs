//! golangci-lint v2 JSON; analyzer errors and warnings are never clean debt.

use vstd::prelude::*;
use crate::json::{as_bool, as_str, as_u64, index, member, Json};
use super::eslint_json::{contains_text, nonempty, nonempty_at};
use super::lint::{diagnostics_only, nonblank, nonblank_at, LintError};
use super::{Data, Issue};

verus! {

/// `Report.Error` holds something other than a blank string.
pub open spec fn reports_error(report: Json) -> bool {
    match member(report, "Error"@) {
        Some(e) => match as_str(e) {
            Some(s) => !crate::text::blank(s),
            None => true,
        },
        None => false,
    }
}

/// Why the `Report` object's analyzer status is refused, if it is.
pub open spec fn status_error(root: Json) -> Option<LintError> {
    let report = index(root, "Report"@);
    if !(report is Object) {
        Some(LintError::MissingField)
    } else if reports_error(report) {
        Some(LintError::AnalysisFailure)
    } else {
        match member(report, "Warnings"@) {
            Some(Json::Array(w)) => if w@.len() > 0 {
                Some(LintError::AnalysisFailure)
            } else {
                None
            },
            Some(_) => Some(LintError::MissingField),
            None => None,
        }
    }
}

/// The linters of the report, if they are a list.
pub open spec fn linters(root: Json) -> Option<Seq<Json>> {
    match member(index(root, "Report"@), "Linters"@) {
        Some(Json::Array(items)) => Some(items@),
        _ => None,
    }
}

/// Why a linter entry is refused, given the names before it.
pub open spec fn linter_error(l: Json, seen: Seq<Seq<char>>) -> Option<LintError> {
    match nonempty(l, "Name"@) {
        None => Some(LintError::MissingField),
        Some(name) => if seen.contains(name) {
            Some(LintError::Duplicate)
        } else if member(l, "Enabled"@) matches Some(v) && !(v is Bool) {
            Some(LintError::MissingField)
        } else {
            None
        },
    }
}

/// The linter entry is explicitly enabled.
pub open spec fn enabled(l: Json) -> bool {
    as_bool(index(l, "Enabled"@)) == Some(true)
}

/// The error of the first refused linter entry.
pub open spec fn linters_error(ls: Seq<Json>, seen: Seq<Seq<char>>) -> Option<LintError>
    decreases ls.len(),
{
    if ls.len() == 0 {
        None
    } else {
        match linter_error(ls[0], seen) {
            Some(e) => Some(e),
            None => linters_error(ls.drop_first(), seen.push(nonempty(ls[0], "Name"@)->0)),
        }
    }
}

/// The names of the enabled linters, in order.
pub open spec fn enabled_names(ls: Seq<Json>) -> Seq<Seq<char>>
    decreases ls.len(),
{
    if ls.len() == 0 {
        seq![]
    } else if enabled(ls.last()) {
        enabled_names(ls.drop_last()).push(nonempty(ls.last(), "Name"@)->0)
    } else {
        enabled_names(ls.drop_last())
    }
}

/// A golangci-lint rule code: at most 16 ASCII letters and digits, starting
/// with a letter and holding a digit.
pub open spec fn rule_code(p: Seq<char>) -> bool {
    &&& p.len() <= 16
    &&& p.len() > 0 && ('a' <= p[0] <= 'z' || 'A' <= p[0] <= 'Z')
    &&& forall|i: int| 0 <= i < p.len() ==> ascii_alnum(#[trigger] p[i])
    &&& exists|i: int| 0 <= i < p.len() && '0' <= #[trigger] p[i] <= '9'
}

/// An ASCII letter or digit.
pub open spec fn ascii_alnum(c: char) -> bool {
    'a' <= c <= 'z' || 'A' <= c <= 'Z' || '0' <= c <= '9'
}

/// `k` is the first position of `c` in `s`.
pub open spec fn is_first(s: Seq<char>, c: char, k: int) -> bool {
    0 <= k < s.len() && s[k] == c && forall|j: int| 0 <= j < k ==> s[j] != c
}

/// The first position of `c` in `s`.
pub open spec fn first_index(s: Seq<char>, c: char) -> Option<int> {
    if exists|k: int| is_first(s, c, k) {
        Some(choose|k: int| is_first(s, c, k))
    } else {
        None
    }
}

/// The rule of a message: its `CODE:` prefix when that is a rule code, else the linter.
pub open spec fn issue_rule(message: Seq<char>, linter: Seq<char>) -> Seq<char> {
    match first_index(message, ':') {
        Some(k) => if rule_code(message.subrange(0, k)) {
            message.subrange(0, k)
        } else {
            linter
        },
        None => linter,
    }
}

/// Why an issue is refused, given the enabled linter names.
pub open spec fn issue_error(i: Json, enabled: Seq<Seq<char>>) -> Option<LintError> {
    match as_str(index(i, "FromLinter"@)) {
        None => Some(LintError::MissingField),
        Some(linter) => if !enabled.contains(linter) {
            Some(LintError::MissingField)
        } else if linter == "typecheck"@ {
            Some(LintError::AnalysisFailure)
        } else if nonblank(i, "Text"@) is None {
            Some(LintError::MissingField)
        } else if nonempty(index(i, "Pos"@), "Filename"@) is None {
            Some(LintError::MissingField)
        } else if !(as_u64(index(index(i, "Pos"@), "Line"@)) matches Some(l) && l > 0 && l
            <= usize::MAX) {
            Some(LintError::MissingField)
        } else {
            None
        },
    }
}

/// The error of the first refused issue.
pub open spec fn issues_error(is: Seq<Json>, enabled: Seq<Seq<char>>) -> Option<LintError>
    decreases is.len(),
{
    if is.len() == 0 {
        None
    } else {
        match issue_error(is[0], enabled) {
            Some(e) => Some(e),
            None => issues_error(is.drop_first(), enabled),
        }
    }
}

/// The diagnostic that a valid issue becomes.
pub open spec fn golangci_issue(i: Json, issue: Issue) -> bool {
    let linter = as_str(index(i, "FromLinter"@))->0;
    let message = nonblank(i, "Text"@)->0;
    &&& issue.rule@ == issue_rule(message, linter)
    &&& issue.file matches Some(file) && Some(file@) == nonempty(index(i, "Pos"@), "Filename"@)
    &&& issue.line matches Some(line) && Some(line as u64) == as_u64(
        index(index(i, "Pos"@), "Line"@),
    )
    &&& issue.message@ == message
    &&& issue.symbol is None
    &&& issue.tool matches Some(tool) && tool@ == linter
    &&& issue.locations@.len() == 0
}

/// The issues of the report, if they are a list.
pub open spec fn issues(root: Json) -> Option<Seq<Json>> {
    match index(root, "Issues"@) {
        Json::Array(items) => Some(items@),
        _ => None,
    }
}

/// The outcome of reading a parsed golangci-lint report.
pub open spec fn golangci_outcome(root: Json, res: Result<Data, LintError>) -> bool {
    match status_error(root) {
        Some(e) => res == Err::<Data, LintError>(e),
        None => match linters(root) {
            None => res == Err::<Data, LintError>(LintError::MissingField),
            Some(ls) => match linters_error(ls, seq![]) {
                Some(e) => res == Err::<Data, LintError>(e),
                None => if enabled_names(ls).len() == 0 {
                    res == Err::<Data, LintError>(LintError::Empty)
                } else {
                    match issues(root) {
                        None => res == Err::<Data, LintError>(LintError::MissingField),
                        Some(is) => match issues_error(is, enabled_names(ls)) {
                            Some(e) => res == Err::<Data, LintError>(e),
                            None => res matches Ok(d) && diagnostics_only(d) && d.issues@.len()
                                == is.len() && forall|k: int|
                                0 <= k < is.len() ==> golangci_issue(is[k], #[trigger] d.issues@[k]),
                        },
                    }
                },
            },
        },
    }
}


fn find_colon(s: &Vec<char>) -> (res: Option<usize>)
    ensures
        res matches Some(k) ==> first_index(s@, ':') == Some(k as int),
        res is None ==> first_index(s@, ':') is None,
{
    let mut i: usize = 0;
    while i < s.len()
        invariant
            0 <= i <= s@.len(),
            forall|j: int| 0 <= j < i ==> s@[j] != ':',
        decreases s@.len() - i,
    {
        if s[i] == ':' {
            assert(is_first(s@, ':', i as int));
            let ghost k = choose|k: int| is_first(s@, ':', k);
            assert(k == i) by {
                if k < i {
                } else if k > i {
                    assert(s@[i as int] != ':');
                }
            }
            return Some(i);
        }
        i = i + 1;
    }
    assert(!exists|k: int| is_first(s@, ':', k));
    None
}

fn prefix(s: &Vec<char>, k: usize) -> (res: Vec<char>)
    requires
        k <= s@.len(),
    ensures
        res@ == s@.subrange(0, k as int),
{
    let mut v: Vec<char> = Vec::new();
    let mut i: usize = 0;
    while i < k
        invariant
            0 <= i <= k,
            k <= s@.len(),
            v@ == s@.subrange(0, i as int),
        decreases k - i,
    {
        v.push(s[i]);
        i = i + 1;
        assert(v@ =~= s@.subrange(0, i as int));
    }
    v
}

fn is_rule_code(p: &Vec<char>) -> (res: bool)
    ensures
        res == rule_code(p@),
{
    if p.len() > 16 || p.len() == 0 {
        return false;
    }
    let first = p[0];
    if !(('a' <= first && first <= 'z') || ('A' <= first && first <= 'Z')) {
        return false;
    }
    let mut digit = false;
    let mut i: usize = 0;
    while i < p.len()
        invariant
            0 <= i <= p@.len(),
            forall|j: int| 0 <= j < i ==> ascii_alnum(#[trigger] p@[j]),
            digit == exists|j: int| 0 <= j < i && '0' <= #[trigger] p@[j] <= '9',
        decreases p@.len() - i,
    {
        let c = p[i];
        if !(('a' <= c && c <= 'z') || ('A' <= c && c <= 'Z') || ('0' <= c && c <= '9')) {
            return false;
        }
        if '0' <= c && c <= '9' {
            digit = true;
        }
        i = i + 1;
    }
    digit
}

/// The rule of a golangci-lint message from `linter`.
fn rule_of(message: &String, linter: &String) -> (res: String)
    ensures
        res@ == issue_rule(message@, linter@),
{
    let m = crate::text::chars_of(message.as_str());
    match find_colon(&m) {
        Some(k) => {
            let p = prefix(&m, k);
            if is_rule_code(&p) {
                crate::text::string_of(&p)
            } else {
                linter.clone()
            }
        },
        None => linter.clone(),
    }
}

fn status(root: &Json) -> (res: Option<LintError>)
    ensures
        res == status_error(*root),
{
    let report = match crate::json::get(root, "Report") {
        Some(r) => r,
        None => return Some(LintError::MissingField),
    };
    match report {
        Json::Object(_) => {},
        _ => return Some(LintError::MissingField),
    }
    match crate::json::get(report, "Error") {
        Some(Json::Str(s)) => {
            let c = crate::text::chars_of(s.as_str());
            if !crate::text::is_blank(&c) {
                return Some(LintError::AnalysisFailure);
            }
        },
        Some(_) => return Some(LintError::AnalysisFailure),
        None => {},
    }
    match crate::json::get(report, "Warnings") {
        Some(Json::Array(w)) => if w.len() > 0 {
            Some(LintError::AnalysisFailure)
        } else {
            None
        },
        Some(_) => Some(LintError::MissingField),
        None => None,
    }
}

/// Normalize one issue, given the enabled linter names.
fn issue(i: &Json, enabled: &Vec<String>) -> (res: Result<Issue, LintError>)
    ensures
        res matches Ok(issue) ==> issue_error(*i, super::texts(enabled@)) is None && golangci_issue(
            *i,
            issue,
        ),
        res matches Err(e) ==> issue_error(*i, super::texts(enabled@)) == Some(e),
{
    let linter = match crate::json::str_at(i, "FromLinter") {
        Some(l) => l,
        None => return Err(LintError::MissingField),
    };
    if !contains_text(enabled, linter) {
        return Err(LintError::MissingField);
    }
    let lc = crate::text::chars_of(linter.as_str());
    if crate::text::text_is(&lc, "typecheck") {
        return Err(LintError::AnalysisFailure);
    }
    let message = match nonblank_at(i, "Text") {
        Some(m) => m,
        None => return Err(LintError::MissingField),
    };
    let pos = match crate::json::get(i, "Pos") {
        Some(p) => p,
        None => &Json::Null,
    };
    let file = match nonempty_at(pos, "Filename") {
        Some(f) => f,
        None => return Err(LintError::MissingField),
    };
    let line = match crate::json::u64_at(pos, "Line") {
        Some(l) if l > 0 && l <= usize::MAX as u64 => l,
        _ => return Err(LintError::MissingField),
    };
    Ok(
        Issue {
            rule: rule_of(message, linter),
            file: Some(file.clone()),
            line: Some(line as usize),
            message: message.clone(),
            symbol: None,
            tool: Some(linter.clone()),
            locations: Vec::new(),
        },
    )
}

/// Normalize a parsed golangci-lint JSON report.
pub fn parse_value(root: &Json) -> (res: Result<Data, LintError>)
    ensures
        golangci_outcome(*root, res),
{
    if let Some(e) = status(root) {
        return Err(e);
    }
    let ls = match crate::json::get(root, "Report") {
        Some(report) => match crate::json::get(report, "Linters") {
            Some(Json::Array(items)) => items,
            _ => return Err(LintError::MissingField),
        },
        None => return Err(LintError::MissingField),
    };
    assert(linters(*root) == Some(ls@));
    let mut seen: Vec<String> = Vec::new();
    let mut enabled: Vec<String> = Vec::new();
    let mut i: usize = 0;
    assert(ls@.skip(0) =~= ls@);
    assert(super::texts(seen@) =~= Seq::<Seq<char>>::empty());
    assert(ls@.take(0) =~= Seq::<Json>::empty());
    assert(super::texts(enabled@) =~= enabled_names(ls@.take(0)));
    while i < ls.len()
        invariant
            0 <= i <= ls@.len(),
            status_error(*root) is None,
            linters(*root) == Some(ls@),
            linters_error(ls@, seq![]) == linters_error(ls@.skip(i as int), super::texts(seen@)),
            super::texts(enabled@) == enabled_names(ls@.take(i as int)),
        decreases ls@.len() - i,
    {
        let l = &ls[i];
        assert(ls@.skip(i as int).drop_first() =~= ls@.skip(i + 1));
        assert(ls@.skip(i as int)[0] == ls@[i as int]);
        assert(ls@.take(i + 1).drop_last() =~= ls@.take(i as int));
        assert(ls@.take(i + 1).last() == ls@[i as int]);
        let name = match nonempty_at(l, "Name") {
            Some(n) => n,
            None => return Err(LintError::MissingField),
        };
        if contains_text(&seen, name) {
            return Err(LintError::Duplicate);
        }
        match crate::json::get(l, "Enabled") {
            Some(Json::Bool(_)) | None => {},
            Some(_) => return Err(LintError::MissingField),
        }
        let ghost old_seen = seen@;
        let ghost old_enabled = enabled@;
        seen.push(name.clone());
        assert(super::texts(seen@) =~= super::texts(old_seen).push(name@));
        if crate::json::bool_at(l, "Enabled") == Some(true) {
            enabled.push(name.clone());
            assert(super::texts(enabled@) =~= super::texts(old_enabled).push(name@));
        }
        i = i + 1;
    }
    assert(ls@.skip(i as int).len() == 0);
    assert(ls@.take(i as int) =~= ls@);
    if enabled.len() == 0 {
        return Err(LintError::Empty);
    }
    let is = match crate::json::get(root, "Issues") {
        Some(Json::Array(items)) => items,
        _ => return Err(LintError::MissingField),
    };
    assert(issues(*root) == Some(is@));
    let mut data = Data::empty();
    let mut k: usize = 0;
    assert(is@.skip(0) =~= is@);
    while k < is.len()
        invariant
            0 <= k <= is@.len(),
            status_error(*root) is None,
            linters(*root) == Some(ls@),
            linters_error(ls@, seq![]) is None,
            super::texts(enabled@) == enabled_names(ls@),
            enabled_names(ls@).len() > 0,
            issues(*root) == Some(is@),
            issues_error(is@, super::texts(enabled@)) == issues_error(
                is@.skip(k as int),
                super::texts(enabled@),
            ),
            diagnostics_only(data),
            data.issues@.len() == k,
            forall|q: int| 0 <= q < k ==> golangci_issue(is@[q], #[trigger] data.issues@[q]),
        decreases is@.len() - k,
    {
        assert(is@.skip(k as int).drop_first() =~= is@.skip(k + 1));
        assert(is@.skip(k as int)[0] == is@[k as int]);
        match issue(&is[k], &enabled) {
            Ok(v) => data.issues.push(v),
            Err(e) => return Err(e),
        }
        k = k + 1;
    }
    assert(is@.skip(k as int).len() == 0);
    Ok(data)
}

/// Normalize golangci-lint's JSON report text.
pub fn parse(text: &str) -> (res: Result<Data, LintError>)
    ensures
        crate::json::spec_parse_json(text@) is None ==> res == Err::<Data, LintError>(
            LintError::InvalidJson,
        ),
        crate::json::spec_parse_json(text@) matches Some(root) ==> golangci_outcome(root, res),
{
    match crate::json::parse_json(text) {
        None => Err(LintError::InvalidJson),
        Some(root) => parse_value(&root),
    }
}

} // verus!
