//! ESLint's built-in JSON formatter; configuration or parse errors are never lint debt.

use vstd::prelude::*;
use crate::json::{as_bool, as_str, as_u64, index, Json};
use super::lint::{diagnostics_only, nonblank, nonblank_at, LintError};
use super::{Data, Issue};

verus! {

/// A nonempty string member.
pub open spec fn nonempty(j: Json, key: Seq<char>) -> Option<Seq<char>> {
    match as_str(index(j, key)) {
        Some(s) => if s.len() > 0 {
            Some(s)
        } else {
            None
        },
        None => None,
    }
}

/// The messages of a file result, if they are a list.
pub open spec fn messages(f: Json) -> Option<Seq<Json>> {
    match index(f, "messages"@) {
        Json::Array(items) => Some(items@),
        _ => None,
    }
}

/// Why one ESLint message is refused, if it is.
pub open spec fn message_error(m: Json) -> Option<LintError> {
    if !(as_u64(index(m, "severity"@)) matches Some(s) && (s == 1 || s == 2)) {
        Some(LintError::MissingField)
    } else if as_bool(index(m, "fatal"@)) == Some(true) {
        Some(LintError::AnalysisFailure)
    } else if nonempty(m, "ruleId"@) is None {
        Some(LintError::MissingField)
    } else if !(as_u64(index(m, "line"@)) matches Some(l) && l > 0 && l <= usize::MAX) {
        Some(LintError::MissingField)
    } else if nonblank(m, "message"@) is None {
        Some(LintError::MissingField)
    } else {
        None
    }
}

/// The error of the first refused message.
pub open spec fn first_message_error(ms: Seq<Json>) -> Option<LintError>
    decreases ms.len(),
{
    if ms.len() == 0 {
        None
    } else {
        match message_error(ms[0]) {
            Some(e) => Some(e),
            None => first_message_error(ms.drop_first()),
        }
    }
}

/// How many messages have this severity.
pub open spec fn count_severity(ms: Seq<Json>, severity: u64) -> nat
    decreases ms.len(),
{
    if ms.len() == 0 {
        0
    } else {
        count_severity(ms.drop_last(), severity) + if as_u64(index(ms.last(), "severity"@))
            == Some(severity) {
            1nat
        } else {
            0nat
        }
    }
}

/// Why one file result is refused, given the paths of the results before it.
pub open spec fn file_error(f: Json, seen: Seq<Seq<char>>) -> Option<LintError> {
    match nonempty(f, "filePath"@) {
        None => Some(LintError::MissingField),
        Some(path) => if seen.contains(path) {
            Some(LintError::Duplicate)
        } else if as_u64(index(f, "fatalErrorCount"@)) is None {
            Some(LintError::MissingField)
        } else if as_u64(index(f, "fatalErrorCount"@)) != Some(0u64) {
            Some(LintError::AnalysisFailure)
        } else {
            match messages(f) {
                None => Some(LintError::MissingField),
                Some(ms) => match first_message_error(ms) {
                    Some(e) => Some(e),
                    None => if as_u64(index(f, "errorCount"@)) is None || as_u64(
                        index(f, "warningCount"@),
                    ) is None {
                        Some(LintError::MissingField)
                    } else if as_u64(index(f, "errorCount"@))->0 != count_severity(ms, 2)
                        || as_u64(index(f, "warningCount"@))->0 != count_severity(ms, 1) {
                        Some(LintError::Inconsistent)
                    } else {
                        None
                    },
                },
            }
        },
    }
}

/// The error of the first refused file result.
pub open spec fn files_error(files: Seq<Json>, seen: Seq<Seq<char>>) -> Option<LintError>
    decreases files.len(),
{
    if files.len() == 0 {
        None
    } else {
        match file_error(files[0], seen) {
            Some(e) => Some(e),
            None => files_error(files.drop_first(), seen.push(nonempty(files[0], "filePath"@)->0)),
        }
    }
}

/// Each message of a file result with the file's path.
pub open spec fn file_pairs(f: Json) -> Seq<(Json, Seq<char>)> {
    match messages(f) {
        Some(ms) => ms.map_values(|m: Json| (m, nonempty(f, "filePath"@)->0)),
        None => seq![],
    }
}

/// All messages of all file results, in order, with their file paths.
pub open spec fn all_pairs(files: Seq<Json>) -> Seq<(Json, Seq<char>)>
    decreases files.len(),
{
    if files.len() == 0 {
        seq![]
    } else {
        all_pairs(files.drop_last()) + file_pairs(files.last())
    }
}

/// The diagnostic that a valid message of the file at `path` becomes.
pub open spec fn eslint_issue(m: Json, path: Seq<char>, issue: Issue) -> bool {
    &&& Some(issue.rule@) == nonempty(m, "ruleId"@)
    &&& issue.file matches Some(file) && file@ == path
    &&& issue.line matches Some(line) && Some(line as u64) == as_u64(index(m, "line"@))
    &&& Some(issue.message@) == nonblank(m, "message"@)
    &&& issue.symbol is None
    &&& issue.tool matches Some(tool) && tool@ == "eslint"@
    &&& issue.locations@.len() == 0
}

/// The file results of a report, if it is a list.
pub open spec fn spec_files(report: Json) -> Option<Seq<Json>> {
    match report {
        Json::Array(items) => Some(items@),
        _ => None,
    }
}

/// The outcome of reading a parsed ESLint report.
pub open spec fn eslint_outcome(report: Json, res: Result<Data, LintError>) -> bool {
    match spec_files(report) {
        None => res == Err::<Data, LintError>(LintError::InvalidJson),
        Some(files) => if files.len() == 0 {
            res == Err::<Data, LintError>(LintError::Empty)
        } else {
            match files_error(files, seq![]) {
                Some(e) => res == Err::<Data, LintError>(e),
                None => res matches Ok(d) && diagnostics_only(d) && d.issues@.len() == all_pairs(
                    files,
                ).len() && forall|i: int|
                    0 <= i < d.issues@.len() ==> eslint_issue(
                        all_pairs(files)[i].0,
                        all_pairs(files)[i].1,
                        #[trigger] d.issues@[i],
                    ),
            }
        },
    }
}

pub(crate) fn contains_text(seen: &Vec<String>, s: &String) -> (res: bool)
    ensures
        res == super::texts(seen@).contains(s@),
{
    let c = crate::text::chars_of(s.as_str());
    let mut i: usize = 0;
    while i < seen.len()
        invariant
            0 <= i <= seen@.len(),
            c@ == s@,
            forall|j: int| 0 <= j < i ==> (#[trigger] seen@[j])@ != s@,
        decreases seen@.len() - i,
    {
        let d = crate::text::chars_of(seen[i].as_str());
        if crate::text::chars_equal(&d, &c) {
            assert(super::texts(seen@)[i as int] == s@);
            return true;
        }
        i = i + 1;
    }
    assert forall|j: int| 0 <= j < seen@.len() implies #[trigger] super::texts(seen@)[j] != s@ by {
        assert(super::texts(seen@)[j] == seen@[j]@);
    }
    false
}

pub(crate) fn nonempty_at<'a>(j: &'a Json, key: &str) -> (res: Option<&'a String>)
    ensures
        res matches Some(s) ==> nonempty(*j, key@) == Some(s@),
        res is None ==> nonempty(*j, key@) is None,
{
    match crate::json::str_at(j, key) {
        Some(s) => if s.as_str().is_empty() {
            None
        } else {
            Some(s)
        },
        None => None,
    }
}

/// Normalize one message of the file at `path`.
fn message(m: &Json, path: &String) -> (res: Result<Issue, LintError>)
    ensures
        res matches Ok(issue) ==> message_error(*m) is None && eslint_issue(*m, path@, issue),
        res matches Err(e) ==> message_error(*m) == Some(e),
{
    match crate::json::u64_at(m, "severity") {
        Some(1u64) | Some(2u64) => {},
        _ => return Err(LintError::MissingField),
    }
    if crate::json::bool_at(m, "fatal") == Some(true) {
        return Err(LintError::AnalysisFailure);
    }
    let rule = match nonempty_at(m, "ruleId") {
        Some(r) => r,
        None => return Err(LintError::MissingField),
    };
    let line = match crate::json::u64_at(m, "line") {
        Some(l) if l > 0 && l <= usize::MAX as u64 => l,
        _ => return Err(LintError::MissingField),
    };
    let text = match nonblank_at(m, "message") {
        Some(t) => t,
        None => return Err(LintError::MissingField),
    };
    Ok(
        Issue {
            rule: rule.clone(),
            file: Some(path.clone()),
            line: Some(line as usize),
            message: text.clone(),
            symbol: None,
            tool: Some(String::from_str("eslint")),
            locations: Vec::new(),
        },
    )
}

/// Normalize a parsed ESLint report (a list of file results).
pub fn parse_value(report: &Json) -> (res: Result<Data, LintError>)
    ensures
        eslint_outcome(*report, res),
{
    let files = match report {
        Json::Array(items) => items,
        _ => return Err(LintError::InvalidJson),
    };
    if files.len() == 0 {
        return Err(LintError::Empty);
    }
    let mut data = Data::empty();
    let mut seen: Vec<String> = Vec::new();
    let mut i: usize = 0;
    assert(files@.skip(0) =~= files@);
    assert(super::texts(seen@) =~= Seq::<Seq<char>>::empty());
    assert(files@.take(0) =~= Seq::<Json>::empty());
    while i < files.len()
        invariant
            0 <= i <= files@.len(),
            spec_files(*report) == Some(files@),
            files_error(files@, seq![]) == files_error(
                files@.skip(i as int),
                super::texts(seen@),
            ),
            diagnostics_only(data),
            data.issues@.len() == all_pairs(files@.take(i as int)).len(),
            forall|k: int|
                0 <= k < data.issues@.len() ==> eslint_issue(
                    all_pairs(files@.take(i as int))[k].0,
                    all_pairs(files@.take(i as int))[k].1,
                    #[trigger] data.issues@[k],
                ),
        decreases files@.len() - i,
    {
        let f = &files[i];
        assert(files@.skip(i as int).drop_first() =~= files@.skip(i + 1));
        assert(files@.skip(i as int)[0] == files@[i as int]);
        assert(files@.take(i + 1).drop_last() =~= files@.take(i as int));
        assert(files@.take(i + 1).last() == files@[i as int]);
        let path = match nonempty_at(f, "filePath") {
            Some(p) => p,
            None => return Err(LintError::MissingField),
        };
        if contains_text(&seen, path) {
            return Err(LintError::Duplicate);
        }
        match crate::json::u64_at(f, "fatalErrorCount") {
            None => return Err(LintError::MissingField),
            Some(0u64) => {},
            Some(_) => return Err(LintError::AnalysisFailure),
        }
        let ms = match crate::json::get(f, "messages") {
            Some(Json::Array(ms)) => ms,
            _ => return Err(LintError::MissingField),
        };
        assert(messages(*f) == Some(ms@));
        let ghost before = data.issues@;
        let ghost prefix = all_pairs(files@.take(i as int));
        assert(forall|q: int|
            0 <= q < before.len() ==> eslint_issue(prefix[q].0, prefix[q].1, #[trigger] before[q]));
        let mut errors: u64 = 0;
        let mut warnings: u64 = 0;
        let mut k: usize = 0;
        assert(ms@.skip(0) =~= ms@);
        assert(ms@.take(0) =~= Seq::<Json>::empty());
        while k < ms.len()
            invariant
                0 <= k <= ms@.len(),
                0 <= i < files@.len(),
                spec_files(*report) == Some(files@),
                *f == files@[i as int],
                files@.skip(i as int)[0] == files@[i as int],
                files_error(files@, seq![]) == files_error(
                    files@.skip(i as int),
                    super::texts(seen@),
                ),
                !super::texts(seen@).contains(path@),
                as_u64(index(*f, "fatalErrorCount"@)) == Some(0u64),
                errors + warnings == k,
                messages(*f) == Some(ms@),
                nonempty(*f, "filePath"@) == Some(path@),
                first_message_error(ms@) == first_message_error(ms@.skip(k as int)),
                errors == count_severity(ms@.take(k as int), 2),
                warnings == count_severity(ms@.take(k as int), 1),
                diagnostics_only(data),
                data.issues@.len() == before.len() + k,
                forall|q: int| 0 <= q < before.len() ==> data.issues@[q] == before[q],
                forall|q: int|
                    before.len() <= q < data.issues@.len() ==> eslint_issue(
                        ms@[q - before.len()],
                        path@,
                        #[trigger] data.issues@[q],
                    ),
            decreases ms@.len() - k,
        {
            assert(ms@.skip(k as int).drop_first() =~= ms@.skip(k + 1));
            assert(ms@.skip(k as int)[0] == ms@[k as int]);
            assert(ms@.take(k + 1).drop_last() =~= ms@.take(k as int));
            assert(ms@.take(k + 1).last() == ms@[k as int]);
            let issue = match message(&ms[k], path) {
                Ok(issue) => issue,
                Err(e) => return Err(e),
            };
            if crate::json::u64_at(&ms[k], "severity") == Some(2u64) {
                errors = errors + 1;
            } else {
                warnings = warnings + 1;
            }
            data.issues.push(issue);
            k = k + 1;
        }
        assert(ms@.skip(k as int).len() == 0);
        assert(ms@.take(k as int) =~= ms@);
        let reported_errors = match crate::json::u64_at(f, "errorCount") {
            Some(n) => n,
            None => return Err(LintError::MissingField),
        };
        let reported_warnings = match crate::json::u64_at(f, "warningCount") {
            Some(n) => n,
            None => return Err(LintError::MissingField),
        };
        if reported_errors != errors || reported_warnings != warnings {
            return Err(LintError::Inconsistent);
        }
        let ghost old_seen = seen@;
        seen.push(path.clone());
        assert(super::texts(seen@) =~= super::texts(old_seen).push(path@));
        assert(all_pairs(files@.take(i + 1)) == prefix + file_pairs(files@[i as int]));
        assert forall|q: int| 0 <= q < data.issues@.len() implies eslint_issue(
            all_pairs(files@.take(i + 1))[q].0,
            all_pairs(files@.take(i + 1))[q].1,
            #[trigger] data.issues@[q],
        ) by {
            if q >= before.len() {
                assert(file_pairs(files@[i as int])[q - before.len()] == (ms@[q - before.len()], path@));
                assert(all_pairs(files@.take(i + 1))[q] == file_pairs(files@[i as int])[q - prefix.len()]);
            } else {
                assert(data.issues@[q] == before[q]);
                assert(all_pairs(files@.take(i + 1))[q] == prefix[q]);
            }
        }
        i = i + 1;
    }
    assert(files@.skip(i as int).len() == 0);
    assert(files@.take(i as int) =~= files@);
    Ok(data)
}

/// Normalize ESLint's JSON report text.
pub fn parse(text: &str) -> (res: Result<Data, LintError>)
    ensures
        crate::json::spec_parse_json(text@) is None ==> res == Err::<Data, LintError>(
            LintError::InvalidJson,
        ),
        crate::json::spec_parse_json(text@) matches Some(report) ==> eslint_outcome(report, res),
{
    match crate::json::parse_json(text) {
        None => Err(LintError::InvalidJson),
        Some(report) => parse_value(&report),
    }
}

} // verus!
