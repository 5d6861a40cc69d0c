//! Cargo's JSON Lines compiler messages from `cargo clippy --message-format=json`.

use vstd::prelude::*;
use crate::json::{as_bool, as_str, as_u64, index, spec_parse_json, Json};
use super::lint::{diagnostics_only, nonblank, nonblank_at, LintError};
use super::{Data, Issue};
use crate::text::{blank, lines};

verus! {

/// Progress through the record stream: the build result once finished, whether a
/// compiler error was seen, how many lints were denied, and the lint messages kept.
pub type Progress = (Option<bool>, bool, nat, Seq<Json>);

/// A compiler message level that Cargo emits.
pub open spec fn known_level(l: Seq<char>) -> bool {
    l == "warning"@ || l == "error"@ || l == "note"@ || l == "help"@ || l == "failure-note"@
}

/// The lint code of a compiler message.
pub open spec fn code(message: Json) -> Option<Seq<char>> {
    as_str(index(index(message, "code"@), "code"@))
}

/// The first span marked primary.
pub open spec fn primary(spans: Seq<Json>) -> Option<Json>
    decreases spans.len(),
{
    if spans.len() == 0 {
        None
    } else if as_bool(index(spans[0], "is_primary"@)) == Some(true) {
        Some(spans[0])
    } else {
        primary(spans.drop_first())
    }
}

/// The spans of a compiler message, if they are a list.
pub open spec fn spans(message: Json) -> Option<Seq<Json>> {
    match index(message, "spans"@) {
        Json::Array(items) => Some(items@),
        _ => None,
    }
}

/// Why a warning or error compiler message that is a lint is refused, if it is.
pub open spec fn lint_error(message: Json) -> Option<LintError> {
    match code(message) {
        None => Some(LintError::MissingField),
        Some(rule) => if rule.len() == 0 {
            Some(LintError::MissingField)
        } else if rule == "unknown_lints"@ || rule == "renamed_and_removed_lints"@ {
            Some(LintError::AnalysisFailure)
        } else {
            match spans(message) {
                None => Some(LintError::MissingField),
                Some(ss) => match primary(ss) {
                    None => Some(LintError::MissingField),
                    Some(p) => if as_str(index(p, "file_name"@)) is None {
                        Some(LintError::MissingField)
                    } else if !(as_u64(index(p, "line_start"@)) matches Some(l) && l > 0 && l
                        <= usize::MAX) {
                        Some(LintError::MissingField)
                    } else if nonblank(message, "message"@) is None {
                        Some(LintError::MissingField)
                    } else {
                        None
                    },
                },
            }
        },
    }
}

/// An error-level message without a lint code, or with a rustc `E` code.
pub open spec fn compiler_error(level: Seq<char>, message: Json) -> bool {
    level == "error"@ && match code(message) {
        None => true,
        Some(c) => c.len() > 0 && c[0] == 'E',
    }
}

/// The progress after one `compiler-message` record.
pub open spec fn message_step(p: Progress, message: Json) -> Result<Progress, LintError> {
    match as_str(index(message, "level"@)) {
        None => Err(LintError::MissingField),
        Some(level) => if !known_level(level) {
            Err(LintError::Unsupported)
        } else if !(level == "warning"@ || level == "error"@) {
            Ok(p)
        } else if compiler_error(level, message) {
            Ok((p.0, true, p.2, p.3))
        } else {
            match lint_error(message) {
                Some(e) => Err(e),
                None => Ok(
                    (p.0, p.1, if level == "error"@ {
                        p.2 + 1
                    } else {
                        p.2
                    }, p.3.push(message)),
                ),
            }
        },
    }
}

/// The progress after one line of output.
pub open spec fn line_step(p: Progress, line: Seq<char>) -> Result<Progress, LintError> {
    if blank(line) {
        Err(LintError::EmptyRecord)
    } else {
        match spec_parse_json(line) {
            None => Err(LintError::InvalidJson),
            Some(record) => match as_str(index(record, "reason"@)) {
                None => Err(LintError::MissingField),
                Some(reason) => if p.0 is Some {
                    Err(LintError::Incomplete)
                } else if reason == "build-finished"@ {
                    match as_bool(index(record, "success"@)) {
                        None => Err(LintError::MissingField),
                        Some(success) => Ok((Some(success), p.1, p.2, p.3)),
                    }
                } else if reason == "compiler-message"@ {
                    message_step(p, index(record, "message"@))
                } else if reason == "compiler-artifact"@ || reason == "build-script-executed"@
                    || reason == "text-line"@ {
                    Ok(p)
                } else {
                    Err(LintError::Unsupported)
                },
            },
        }
    }
}

/// The progress after a sequence of lines.
pub open spec fn run(ls: Seq<Seq<char>>, p: Progress) -> Result<Progress, LintError>
    decreases ls.len(),
{
    if ls.len() == 0 {
        Ok(p)
    } else {
        match line_step(p, ls[0]) {
            Err(e) => Err(e),
            Ok(next) => run(ls.drop_first(), next),
        }
    }
}

/// The diagnostic that a lint message becomes.
pub open spec fn clippy_issue(message: Json, issue: Issue) -> bool {
    let p = primary(spans(message)->0)->0;
    &&& Some(issue.rule@) == code(message)
    &&& issue.file matches Some(file) && Some(file@) == as_str(index(p, "file_name"@))
    &&& issue.line matches Some(line) && Some(line as u64) == as_u64(index(p, "line_start"@))
    &&& Some(issue.message@) == nonblank(message, "message"@)
    &&& issue.symbol is None
    &&& issue.tool matches Some(tool) && tool@ == "clippy"@
    &&& issue.locations@.len() == 0
}

/// The outcome of reading Cargo Clippy output `text`.
pub open spec fn clippy_outcome(text: Seq<char>, res: Result<Data, LintError>) -> bool {
    match run(lines(text), (None, false, 0, seq![])) {
        Err(e) => res == Err::<Data, LintError>(e),
        Ok((finished, compiler_errors, denied, kept)) => match finished {
            None => res == Err::<Data, LintError>(LintError::Incomplete),
            Some(success) => if compiler_errors || (!success && denied == 0) || (success && denied
                > 0) {
                res == Err::<Data, LintError>(LintError::AnalysisFailure)
            } else {
                res matches Ok(d) && diagnostics_only(d) && d.issues@.len() == kept.len() && forall|
                    i: int,
                | 0 <= i < kept.len() ==> clippy_issue(kept[i], #[trigger] d.issues@[i])
            },
        },
    }
}

fn primary_span(spans: &Vec<Json>) -> (res: Option<&Json>)
    ensures
        res matches Some(p) ==> primary(spans@) == Some(*p),
        res is None ==> primary(spans@) is None,
{
    let mut i: usize = 0;
    assert(spans@.skip(0) =~= spans@);
    while i < spans.len()
        invariant
            0 <= i <= spans@.len(),
            primary(spans@) == primary(spans@.skip(i as int)),
        decreases spans@.len() - i,
    {
        assert(spans@.skip(i as int).drop_first() =~= spans@.skip(i + 1));
        assert(spans@.skip(i as int)[0] == spans@[i as int]);
        if crate::json::bool_at(&spans[i], "is_primary") == Some(true) {
            return Some(&spans[i]);
        }
        i = i + 1;
    }
    None
}

fn code_exec(message: &Json) -> (res: Option<&String>)
    ensures
        res matches Some(c) ==> code(*message) == Some(c@),
        res is None ==> code(*message) is None,
{
    match crate::json::get(message, "code") {
        Some(c) => crate::json::str_at(c, "code"),
        None => crate::json::str_at(&Json::Null, "code"),
    }
}

/// Normalize one lint message.
fn lint(message: &Json) -> (res: Result<Issue, LintError>)
    ensures
        res matches Ok(issue) ==> lint_error(*message) is None && clippy_issue(*message, issue),
        res matches Err(e) ==> lint_error(*message) == Some(e),
{
    let rule = match code_exec(message) {
        Some(c) => c,
        None => return Err(LintError::MissingField),
    };
    let r = crate::text::chars_of(rule.as_str());
    if r.len() == 0 {
        return Err(LintError::MissingField);
    }
    if crate::text::text_is(&r, "unknown_lints") || crate::text::text_is(
        &r,
        "renamed_and_removed_lints",
    ) {
        return Err(LintError::AnalysisFailure);
    }
    let ss = match crate::json::get(message, "spans") {
        Some(Json::Array(items)) => items,
        _ => return Err(LintError::MissingField),
    };
    let p = match primary_span(ss) {
        Some(p) => p,
        None => return Err(LintError::MissingField),
    };
    let file = match crate::json::str_at(p, "file_name") {
        Some(f) => f,
        None => return Err(LintError::MissingField),
    };
    let line = match crate::json::u64_at(p, "line_start") {
        Some(l) if l > 0 && l <= usize::MAX as u64 => l,
        _ => return Err(LintError::MissingField),
    };
    let text = match nonblank_at(message, "message") {
        Some(t) => t,
        None => return Err(LintError::MissingField),
    };
    Ok(
        Issue {
            rule: rule.clone(),
            file: Some(file.clone()),
            line: Some(line as usize),
            message: text.clone(),
            symbol: None,
            tool: Some(String::from_str("clippy")),
            locations: Vec::new(),
        },
    )
}

/// Normalize Cargo Clippy's JSON Lines output.
pub fn parse(text: &str) -> (res: Result<Data, LintError>)
    ensures
        clippy_outcome(text@, res),
{
    let chars = crate::text::chars_of(text);
    let ls = crate::text::split_lines(&chars);
    let ghost all = lines(text@);
    let mut data = Data::empty();
    let mut finished: Option<bool> = None;
    let mut compiler_errors = false;
    let mut denied: usize = 0;
    let ghost mut kept: Seq<Json> = seq![];
    let mut i: usize = 0;
    assert(all.skip(0) =~= all);
    while i < ls.len()
        invariant
            0 <= i <= ls@.len(),
            all == lines(text@),
            crate::text::views(ls@) == all,
            denied <= i,
            run(all, (None, false, 0, seq![])) == run(
                all.skip(i as int),
                (finished, compiler_errors, denied as nat, kept),
            ),
            diagnostics_only(data),
            data.issues@.len() == kept.len(),
            forall|q: int| 0 <= q < kept.len() ==> clippy_issue(kept[q], #[trigger] data.issues@[q]),
        decreases ls@.len() - i,
    {
        assert(all.skip(i as int).drop_first() =~= all.skip(i + 1));
        assert(all.skip(i as int)[0] == ls@[i as int]@);
        let line = &ls[i];
        if crate::text::is_blank(line) {
            return Err(LintError::EmptyRecord);
        }
        let owned = crate::text::string_of(line);
        let record = match crate::json::parse_json(owned.as_str()) {
            Some(r) => r,
            None => return Err(LintError::InvalidJson),
        };
        let reason = match crate::json::str_at(&record, "reason") {
            Some(r) => crate::text::chars_of(r.as_str()),
            None => return Err(LintError::MissingField),
        };
        if finished.is_some() {
            return Err(LintError::Incomplete);
        }
        if crate::text::text_is(&reason, "build-finished") {
            match crate::json::bool_at(&record, "success") {
                Some(success) => finished = Some(success),
                None => return Err(LintError::MissingField),
            }
        } else if crate::text::text_is(&reason, "compiler-message") {
            let message = match crate::json::get(&record, "message") {
                Some(m) => m,
                None => &Json::Null,
            };
            let level = match crate::json::str_at(message, "level") {
                Some(l) => crate::text::chars_of(l.as_str()),
                None => return Err(LintError::MissingField),
            };
            let warning = crate::text::text_is(&level, "warning");
            let error = crate::text::text_is(&level, "error");
            if !(warning || error || crate::text::text_is(&level, "note") || crate::text::text_is(
                &level,
                "help",
            ) || crate::text::text_is(&level, "failure-note")) {
                return Err(LintError::Unsupported);
            }
            if warning || error {
                let code = code_exec(message);
                let compiler = error && match code {
                    None => true,
                    Some(c) => {
                        let cc = crate::text::chars_of(c.as_str());
                        cc.len() > 0 && cc[0] == 'E'
                    },
                };
                if compiler {
                    compiler_errors = true;
                } else {
                    match lint(message) {
                        Ok(issue) => {
                            data.issues.push(issue);
                            proof {
                                kept = kept.push(index(record, "message"@));
                            }
                            if error {
                                denied = denied + 1;
                            }
                        },
                        Err(e) => return Err(e),
                    }
                }
            }
        } else if crate::text::text_is(&reason, "compiler-artifact") || crate::text::text_is(
            &reason,
            "build-script-executed",
        ) || crate::text::text_is(&reason, "text-line") {
        } else {
            return Err(LintError::Unsupported);
        }
        i = i + 1;
    }
    assert(all.skip(i as int).len() == 0);
    let success = match finished {
        Some(s) => s,
        None => return Err(LintError::Incomplete),
    };
    if compiler_errors || (!success && denied == 0) || (success && denied > 0) {
        return Err(LintError::AnalysisFailure);
    }
    Ok(data)
}

} // verus!
