//! Repository rules over captured snapshots: line endings, commit subjects and
//! change size.

use vstd::prelude::*;
use crate::digest::{digest, digest_text};
use crate::json::{as_str, as_u64, member, Json};
use crate::text::{decimal_text, lines};
use crate::provenance::File;
use crate::reports::diagnostics::opt_view;
use crate::syntax::Range;
use vstd::string::StringSliceAdditionalSpecFns;
use vstd::utf8::encode_utf8;

verus! {

/// Some LF is preceded by a CR.
pub open spec fn has_crlf(b: Seq<u8>) -> bool {
    exists|i: int| 0 < i < b.len() && #[trigger] b[i] == 10 && b[i - 1] == 13
}

/// Some LF is not preceded by a CR.
pub open spec fn has_lf(b: Seq<u8>) -> bool {
    exists|i: int| 0 <= i < b.len() && #[trigger] b[i] == 10 && (i == 0 || b[i - 1] != 13)
}

/// The line-ending style of a file: `mixed`, `crlf`, `lf` or `none`.
pub open spec fn spec_eol(b: Seq<u8>) -> Seq<char> {
    if has_crlf(b) && has_lf(b) {
        "mixed"@
    } else if has_crlf(b) {
        "crlf"@
    } else if has_lf(b) {
        "lf"@
    } else {
        "none"@
    }
}

/// Classify the line endings of `bytes`.
pub fn eol(bytes: &[u8]) -> (res: &'static str)
    ensures
        res@ == spec_eol(bytes@),
{
    let mut crlf = false;
    let mut lf = false;
    let mut i: usize = 0;
    while i < bytes.len()
        invariant
            0 <= i <= bytes@.len(),
            crlf == exists|j: int| 0 < j < i && #[trigger] bytes@[j] == 10 && bytes@[j - 1] == 13,
            lf == exists|j: int| 0 <= j < i && #[trigger] bytes@[j] == 10 && (j == 0 || bytes@[j - 1]
                != 13),
        decreases bytes@.len() - i,
    {
        if bytes[i] == 10 {
            if i > 0 && bytes[i - 1] == 13 {
                crlf = true;
            } else {
                lf = true;
            }
        }
        i = i + 1;
    }
    if crlf && lf {
        "mixed"
    } else if crlf {
        "crlf"
    } else if lf {
        "lf"
    } else {
        "none"
    }
}

} // verus!

verus! {

/// One changed file of a snapshot, as the rules read it: its path, change kind,
/// previous path, added line numbers, and whether the snapshot's path filter
/// includes it.
#[derive(Debug, Clone)]
pub struct Change {
    pub path: String,
    pub kind: String,
    pub old_path: Option<String>,
    pub added_lines: Vec<usize>,
    pub included: bool,
}

/// What the rules read of a snapshot: current and base files by path (in path
/// order, each path once), the changes in path order, the new commits, and the
/// digest of the captured content.
#[derive(Debug, Clone)]
pub struct Snapshot {
    pub files: Vec<(String, File)>,
    pub base_files: Vec<(String, File)>,
    pub changes: Vec<Change>,
    pub commits: Vec<(String, String)>,
    pub content_digest: String,
}

/// The configuration of one rule: its parameters (a JSON object) and whether it
/// requires verified provenance evidence.
#[derive(Debug)]
pub struct RuleSetting {
    pub parameters: Json,
    pub provenance_required: bool,
}

/// A value in a diagnostic's evidence.
#[derive(Debug, Clone)]
pub enum Evidence {
    Text(String),
    Count(u64),
    Indices(Vec<u64>),
}

/// One rule diagnostic: a stable identity, the file and lines it concerns, a
/// message, evidence (keys in ascending order) and a suggested fix.
#[derive(Debug, Clone)]
pub struct Diagnostic {
    pub id: String,
    pub fingerprint: String,
    pub file: Option<String>,
    pub range: Option<Range>,
    pub message: String,
    pub evidence: Vec<(String, Evidence)>,
    pub fix: String,
}

/// Why a rule could not be evaluated.
#[derive(Debug, Clone, Copy, PartialEq, Eq, Structural)]
pub enum RuleError {
    /// The rule requires provenance evidence that was not supplied.
    ProvenanceUnavailable,
    /// No implementation of that name is available here.
    UnknownRule,
    /// The commit pattern is not a valid regular expression.
    InvalidPattern,
    /// `max_added_lines` is not a positive integer.
    InvalidLimit,
    /// A required rule parameter is missing or not a string.
    MissingParameter,
    /// A rule parameter does not have the expected shape.
    InvalidParameter,
    /// A configured language that no rule supports.
    UnsupportedLanguage,
    /// A path pattern that is not a valid glob.
    InvalidGlob,
    /// A selected changed file is absent from the snapshot.
    FileAbsent,
    /// A selected file is not UTF-8.
    NotUtf8,
    /// More than 10000 diagnostics.
    TooManyDiagnostics,
    /// More than 1000000 added lines to examine.
    TooManyLines,
    /// A configured module has no project facts, or more than one.
    ModuleFactsUnavailable,
    /// Project facts of another schema, ecosystem or snapshot.
    ForeignProjectFacts,
    /// A module manifest is not in the checked snapshot.
    ManifestAbsent,
    /// A module coordinate without a version part.
    MalformedCoordinate,
    /// Two configured modules have the same identity.
    DuplicateModule,
    /// More dependencies to examine than a count can hold.
    CountOverflow,
}

/// What evaluating a rule gives: its diagnostics and how many entities it
/// examined; a skip with its reason; or why it could not be evaluated.
#[derive(Debug)]
pub enum RuleOutcome {
    Completed { matched_entities: usize, diagnostics: Vec<Diagnostic> },
    Skipped { reason: String },
    Blocked { error: RuleError },
}

/// An evidence value as plain values.
pub enum EvidenceView {
    Text(Seq<char>),
    Count(u64),
    Indices(Seq<u64>),
}

/// A diagnostic as plain values.
pub struct DiagnosticView {
    pub id: Seq<char>,
    pub fingerprint: Seq<char>,
    pub file: Option<Seq<char>>,
    pub range: Option<Range>,
    pub message: Seq<char>,
    pub evidence: Seq<(Seq<char>, EvidenceView)>,
    pub fix: Seq<char>,
}

/// The plain values of an evidence value.
pub open spec fn evidence_view(e: Evidence) -> EvidenceView {
    match e {
        Evidence::Text(s) => EvidenceView::Text(s@),
        Evidence::Count(n) => EvidenceView::Count(n),
        Evidence::Indices(v) => EvidenceView::Indices(v@),
    }
}

/// The plain values of a diagnostic.
pub open spec fn diagnostic_view(d: Diagnostic) -> DiagnosticView {
    DiagnosticView {
        id: d.id@,
        fingerprint: d.fingerprint@,
        file: opt_view(d.file),
        range: d.range,
        message: d.message@,
        evidence: d.evidence@.map_values(|p: (String, Evidence)| (p.0@, evidence_view(p.1))),
        fix: d.fix@,
    }
}

/// The plain values of computed diagnostics.
pub open spec fn diagnostics_view(v: Seq<Diagnostic>) -> Seq<DiagnosticView> {
    v.map_values(|d: Diagnostic| diagnostic_view(d))
}

/// The diagnostic of rule `rule` about `file`, whose fingerprint is the digest of
/// the rule, the file and an `identity` within it, and whose identifier is the
/// rule and sixteen digits of the fingerprint.
pub open spec fn diagnostic_spec(
    rule: Seq<char>,
    file: Option<Seq<char>>,
    range: Option<Range>,
    message: Seq<char>,
    evidence: Seq<(Seq<char>, EvidenceView)>,
    fix: Seq<char>,
    identity: Seq<char>,
) -> DiagnosticView {
    let key = rule + seq!['\0'] + match file {
        Some(f) => f,
        None => seq![],
    } + seq!['\0'] + identity;
    let fingerprint = digest_text(encode_utf8(key));
    DiagnosticView {
        id: rule + seq![':'] + fingerprint.subrange(7, 23),
        fingerprint,
        file,
        range,
        message,
        evidence,
        fix,
    }
}

/// Build the diagnostic of rule `rule` about `file`.
pub fn diagnostic(
    rule: &str,
    file: Option<&str>,
    range: Option<Range>,
    message: String,
    evidence: Vec<(String, Evidence)>,
    fix: &str,
    identity: &str,
) -> (res: Diagnostic)
    ensures
        diagnostic_view(res) == diagnostic_spec(
            rule@,
            match file { Some(f) => Some(f@), None => None },
            range,
            message@,
            evidence@.map_values(|p: (String, Evidence)| (p.0@, evidence_view(p.1))),
            fix@,
            identity@,
        ),
{
    let ghost fv = match file {
        Some(f) => f@,
        None => seq![],
    };
    let mut key = crate::text::chars_of(rule);
    key.push('\0');
    match file {
        Some(f) => {
            let fc = crate::text::chars_of(f);
            crate::text::extend_chars(&mut key, fc.as_slice());
        },
        None => {},
    }
    assert(key@ =~= rule@ + seq!['\0'] + fv);
    key.push('\0');
    let ic = crate::text::chars_of(identity);
    crate::text::extend_chars(&mut key, ic.as_slice());
    assert(key@ =~= rule@ + seq!['\0'] + fv + seq!['\0'] + identity@);
    let key_text = crate::text::string_of(key.as_slice());
    let fingerprint = digest(key_text.as_str().as_bytes());
    let fp = crate::text::chars_of(fingerprint.as_str());
    let mut id = crate::text::chars_of(rule);
    id.push(':');
    let part = crate::text::copy_range(fp.as_slice(), 7, 23);
    crate::text::extend_chars(&mut id, part.as_slice());
    assert(id@ =~= rule@ + seq![':'] + fp@.subrange(7, 23));
    Diagnostic {
        id: crate::text::string_of(id.as_slice()),
        fingerprint,
        file: match file {
            Some(f) => Some(crate::text::string_of(crate::text::chars_of(f).as_slice())),
            None => None,
        },
        range,
        message,
        evidence,
        fix: crate::text::string_of(crate::text::chars_of(fix).as_slice()),
    }
}

} // verus!

verus! {

/// The file at `path`, if the snapshot has one.
pub open spec fn file_at(files: Seq<(String, File)>, path: Seq<char>) -> Option<File>
    decreases files.len(),
{
    if files.len() == 0 {
        None
    } else if files[0].0@ == path {
        Some(files[0].1)
    } else {
        file_at(files.drop_first(), path)
    }
}

pub(crate) fn file_at_exec<'a>(files: &'a Vec<(String, File)>, path: &str) -> (res: Option<&'a File>)
    ensures
        match file_at(files@, path@) {
            Some(f) => res matches Some(x) && *x == f,
            None => res is None,
        },
{
    let p = crate::text::chars_of(path);
    let mut i: usize = 0;
    assert(files@.skip(0) =~= files@);
    while i < files.len()
        invariant
            0 <= i <= files@.len(),
            p@ == path@,
            file_at(files@, path@) == file_at(files@.skip(i as int), path@),
        decreases files@.len() - i,
    {
        assert(files@.skip(i as int).drop_first() =~= files@.skip(i + 1));
        assert(files@.skip(i as int)[0] == files@[i as int]);
        let k = crate::text::chars_of(files[i].0.as_str());
        if crate::text::chars_equal(&k, &p) {
            return Some(&files[i].1);
        }
        i = i + 1;
    }
    None
}

/// The text `"Line endings changed from <expected> to <actual>"`.
pub open spec fn line_ending_message(expected: Seq<char>, actual: Seq<char>) -> Seq<char> {
    "Line endings changed from "@ + expected + " to "@ + actual
}

/// What the line-ending rule finds in one change: nothing (not examined), an
/// examined file, or an examined file whose line endings changed.
pub open spec fn line_ending_step(s: Snapshot, rule: Seq<char>, c: Change) -> Option<Option<DiagnosticView>> {
    if !c.included {
        None
    } else {
        match file_at(s.files@, c.path@) {
            None => None,
            Some(f) => if f.bytes@.contains(0u8) {
                None
            } else {
                let expected = match c.old_path {
                    Some(p) => match file_at(s.base_files@, p@) {
                        Some(b) => spec_eol(b.bytes@),
                        None => "lf"@,
                    },
                    None => "lf"@,
                };
                let actual = spec_eol(f.bytes@);
                if actual != "none"@ && expected != "none"@ && actual != expected {
                    Some(Some(diagnostic_spec(
                        rule,
                        Some(c.path@),
                        None,
                        line_ending_message(expected, actual),
                        seq![("actual"@, EvidenceView::Text(actual)), ("expected"@, EvidenceView::Text(expected))],
                        "Restore the original line endings; use LF for a new file"@,
                        "line-ending"@,
                    )))
                } else {
                    Some(None)
                }
            },
        }
    }
}

/// The line-ending rule over `changes`, after `matched` examined files and the
/// diagnostics `ds`.
pub open spec fn line_endings(
    s: Snapshot,
    rule: Seq<char>,
    changes: Seq<Change>,
    matched: nat,
    ds: Seq<DiagnosticView>,
) -> (nat, Seq<DiagnosticView>)
    decreases changes.len(),
{
    if changes.len() == 0 {
        (matched, ds)
    } else {
        match line_ending_step(s, rule, changes[0]) {
            None => line_endings(s, rule, changes.drop_first(), matched, ds),
            Some(None) => line_endings(s, rule, changes.drop_first(), matched + 1, ds),
            Some(Some(d)) => line_endings(s, rule, changes.drop_first(), matched + 1, ds.push(d)),
        }
    }
}

pub(crate) fn text_of(s: &str) -> (res: String)
    ensures
        res@ == s@,
{
    crate::text::string_of(crate::text::chars_of(s).as_slice())
}

fn contains_byte(bytes: &[u8], b: u8) -> (res: bool)
    ensures
        res == bytes@.contains(b),
{
    let mut i: usize = 0;
    while i < bytes.len()
        invariant
            0 <= i <= bytes@.len(),
            forall|j: int| 0 <= j < i ==> bytes@[j] != b,
        decreases bytes@.len() - i,
    {
        if bytes[i] == b {
            assert(bytes@[i as int] == b);
            return true;
        }
        i = i + 1;
    }
    false
}

/// The concatenation of four texts.
fn join4(a: &str, b: &str, c: &str, d: &str) -> (res: String)
    ensures
        res@ == a@ + b@ + c@ + d@,
{
    let mut out = crate::text::chars_of(a);
    crate::text::extend_chars(&mut out, crate::text::chars_of(b).as_slice());
    crate::text::extend_chars(&mut out, crate::text::chars_of(c).as_slice());
    crate::text::extend_chars(&mut out, crate::text::chars_of(d).as_slice());
    crate::text::string_of(out.as_slice())
}

#[verifier::loop_isolation(false)]
fn line_endings_exec(s: &Snapshot, rule: &str) -> (res: (usize, Vec<Diagnostic>))
    ensures
        line_endings(*s, rule@, s.changes@, 0, seq![]) == (res.0 as nat, diagnostics_view(res.1@)),
{
    proof {
        reveal_strlit("lf");
        reveal_strlit("none");
        reveal_strlit("crlf");
        reveal_strlit("mixed");
    }
    let mut matched: usize = 0;
    let mut ds: Vec<Diagnostic> = Vec::new();
    let mut i: usize = 0;
    assert(s.changes@.skip(0) =~= s.changes@);
    assert(diagnostics_view(ds@) =~= seq![]);
    while i < s.changes.len()
        invariant
            0 <= i <= s.changes@.len(),
            matched <= i,
            line_endings(*s, rule@, s.changes@, 0, seq![]) == line_endings(
                *s,
                rule@,
                s.changes@.skip(i as int),
                matched as nat,
                diagnostics_view(ds@),
            ),
        decreases s.changes@.len() - i,
    {
        assert(s.changes@.skip(i as int).drop_first() =~= s.changes@.skip(i + 1));
        assert(s.changes@.skip(i as int)[0] == s.changes@[i as int]);
        let c = &s.changes[i];
        i = i + 1;
        if !c.included {
            continue;
        }
        let f = match file_at_exec(&s.files, c.path.as_str()) {
            None => continue,
            Some(f) => f,
        };
        if contains_byte(f.bytes.as_slice(), 0) {
            continue;
        }
        let expected: &'static str = match &c.old_path {
            Some(p) => match file_at_exec(&s.base_files, p.as_str()) {
                Some(b) => eol(b.bytes.as_slice()),
                None => "lf",
            },
            None => "lf",
        };
        let actual = eol(f.bytes.as_slice());
        matched = matched + 1;
        let ea = crate::text::chars_of(expected);
        let aa = crate::text::chars_of(actual);
        if !crate::text::text_is(&aa, "none") && !crate::text::text_is(&ea, "none") && !crate::text::chars_equal(&aa, &ea) {
            let message = join4("Line endings changed from ", expected, " to ", actual);
            let evidence = vec![
                (text_of("actual"), Evidence::Text(text_of(actual))),
                (text_of("expected"), Evidence::Text(text_of(expected))),
            ];
            let ghost ev = evidence@.map_values(|p: (String, Evidence)| (p.0@, evidence_view(p.1)));
            assert(ev =~= seq![("actual"@, EvidenceView::Text(actual@)), ("expected"@, EvidenceView::Text(expected@))]);
            let d = diagnostic(
                rule,
                Some(c.path.as_str()),
                None,
                message,
                evidence,
                "Restore the original line endings; use LF for a new file",
                "line-ending",
            );
            assert(line_ending_step(*s, rule@, s.changes@[i - 1]) == Some(Some(diagnostic_view(d))));
            let ghost before = diagnostics_view(ds@);
            ds.push(d);
            assert(diagnostics_view(ds@) =~= before.push(diagnostic_view(d)));
        }
    }
    assert(s.changes@.skip(i as int) =~= seq![]);
    (matched, ds)
}

} // verus!

verus! {

/// Added lines of the included changes.
pub open spec fn added_lines_total(changes: Seq<Change>) -> nat
    decreases changes.len(),
{
    if changes.len() == 0 {
        0
    } else {
        (if changes[0].included {
            changes[0].added_lines@.len()
        } else {
            0
        }) + added_lines_total(changes.drop_first())
    }
}

/// The limit on added lines: `max_added_lines`, 500 by default, and positive.
pub open spec fn added_lines_limit(parameters: Json) -> Result<u64, RuleError> {
    match member(parameters, "max_added_lines"@) {
        None => Ok(500),
        Some(v) => match as_u64(v) {
            None => Err(RuleError::InvalidLimit),
            Some(n) => if n == 0 {
                Err(RuleError::InvalidLimit)
            } else {
                Ok(n)
            },
        },
    }
}

/// The diff-size rule: every added line of an included change counts, and a
/// change that adds more lines than the limit gets one diagnostic.
pub open spec fn diff_size_outcome(rule: Seq<char>, parameters: Json, changes: Seq<Change>) -> Result<
    (nat, Seq<DiagnosticView>),
    RuleError,
> {
    match added_lines_limit(parameters) {
        Err(e) => Err(e),
        Ok(m) => {
            let lines = added_lines_total(changes);
            if lines > m {
                Ok((lines, seq![diagnostic_spec(
                    rule,
                    None,
                    None,
                    "Change adds "@ + decimal_text(lines) + " lines; limit is "@ + decimal_text(m as nat),
                    seq![("added_lines"@, EvidenceView::Count(lines as u64)), ("limit"@, EvidenceView::Count(m))],
                    "Split independently reviewable changes when practical"@,
                    "added-lines"@,
                )]))
            } else {
                Ok((lines, seq![]))
            }
        },
    }
}

fn added_lines_limit_exec(parameters: &Json) -> (res: Result<u64, RuleError>)
    ensures
        res == added_lines_limit(*parameters),
{
    match crate::json::get(parameters, "max_added_lines") {
        None => Ok(500),
        Some(v) => match v {
            Json::Number(n) => match n.unsigned {
                None => Err(RuleError::InvalidLimit),
                Some(k) => if k == 0 {
                    Err(RuleError::InvalidLimit)
                } else {
                    Ok(k)
                },
            },
            _ => Err(RuleError::InvalidLimit),
        },
    }
}

fn diff_size_exec(rule: &str, parameters: &Json, changes: &Vec<Change>) -> (res: Result<(usize, Vec<Diagnostic>), RuleError>)
    requires
        added_lines_total(changes@) <= usize::MAX,
    ensures
        match diff_size_outcome(rule@, *parameters, changes@) {
            Ok((m, ds)) => res matches Ok((n, v)) && n as nat == m && diagnostics_view(v@) == ds,
            Err(e) => res matches Err(x) && x == e,
        },
{
    let maximum = added_lines_limit_exec(parameters)?;
    let mut lines: usize = 0;
    let mut i: usize = 0;
    assert(changes@.skip(0) =~= changes@);
    while i < changes.len()
        invariant
            0 <= i <= changes@.len(),
            added_lines_total(changes@) <= usize::MAX,
            lines + added_lines_total(changes@.skip(i as int)) == added_lines_total(changes@),
        decreases changes@.len() - i,
    {
        assert(changes@.skip(i as int).drop_first() =~= changes@.skip(i + 1));
        assert(changes@.skip(i as int)[0] == changes@[i as int]);
        if changes[i].included {
            lines = lines + changes[i].added_lines.len();
        }
        i = i + 1;
    }
    assert(changes@.skip(i as int) =~= seq![]);
    if lines as u64 > maximum {
        let lt = crate::text::decimal_string(lines as u64);
        let mt = crate::text::decimal_string(maximum);
        let message = join4("Change adds ", lt.as_str(), " lines; limit is ", mt.as_str());
        let evidence = vec![
            (text_of("added_lines"), Evidence::Count(lines as u64)),
            (text_of("limit"), Evidence::Count(maximum)),
        ];
        let ghost ev = evidence@.map_values(|p: (String, Evidence)| (p.0@, evidence_view(p.1)));
        assert(ev =~= seq![("added_lines"@, EvidenceView::Count(lines as u64)), ("limit"@, EvidenceView::Count(maximum))]);
        let d = diagnostic(rule, None, None, message, evidence, "Split independently reviewable changes when practical", "added-lines");
        let ds = vec![d];
        assert(diagnostics_view(ds@) =~= seq![diagnostic_view(d)]);
        Ok((lines, ds))
    } else {
        let ds: Vec<Diagnostic> = Vec::new();
        assert(diagnostics_view(ds@) =~= seq![]);
        Ok((lines, ds))
    }
}

} // verus!

verus! {

/// Whether `regex` compiles `pattern` to an expression that matches `text`
/// (`None` when `pattern` does not compile).
pub uninterp spec fn spec_regex_match(pattern: Seq<char>, text: Seq<char>) -> Option<bool>;

/// `regex::Regex::new(pattern)` once, then `is_match` on each of `texts`;
/// `None` when the pattern does not compile. Each answer is the named result
/// for its text, and a pattern that does not compile has no answer for any text.
#[verifier::external_body]
pub(crate) fn regex_match_all(pattern: &str, texts: &Vec<Vec<char>>) -> (res: Option<Vec<bool>>)
    ensures
        match res {
            Some(v) => v@.len() == texts@.len() && forall|i: int|
                0 <= i < texts@.len() ==> spec_regex_match(pattern@, (#[trigger] texts@[i])@) == Some(v@[i]),
            None => forall|i: int| 0 <= i < texts@.len() ==> spec_regex_match(pattern@, (#[trigger] texts@[i])@) is None,
        },
{
    let r = regex::Regex::new(pattern).ok()?;
    Some(texts.iter().map(|t| r.is_match(&t.iter().collect::<String>())).collect())
}

/// Whether `pattern` compiles to an expression that matches `text`: `None`
/// when the pattern does not compile.
pub(crate) fn regex_match(pattern: &str, text: &str) -> (res: Option<bool>)
    ensures
        res == spec_regex_match(pattern@, text@),
{
    let texts = vec![crate::text::chars_of(text)];
    assert(texts@[0]@ == text@);
    match regex_match_all(pattern, &texts) {
        Some(v) => Some(v[0]),
        None => None,
    }
}

/// The default commit subject convention.
pub const DEFAULT_COMMIT_PATTERN: &'static str = "^\\[[^\\]]+\\](feat|fix|docs|test|refactor|build|ci|chore): .+";

/// The commit subject pattern: the `pattern` parameter when it is a string.
pub open spec fn commit_pattern(parameters: Json) -> Seq<char> {
    match member(parameters, "pattern"@) {
        Some(v) => match as_str(v) {
            Some(p) => p,
            None => DEFAULT_COMMIT_PATTERN@,
        },
        None => DEFAULT_COMMIT_PATTERN@,
    }
}

/// The first line of a commit message (empty for an empty message).
pub open spec fn subject_line(message: Seq<char>) -> Seq<char> {
    if lines(message).len() > 0 {
        lines(message)[0]
    } else {
        seq![]
    }
}

/// The diagnostics of commits whose subject does not match `pattern`, after `ds`.
pub open spec fn commit_diagnostics(
    rule: Seq<char>,
    pattern: Seq<char>,
    commits: Seq<(String, String)>,
    ds: Seq<DiagnosticView>,
) -> Seq<DiagnosticView>
    decreases commits.len(),
{
    if commits.len() == 0 {
        ds
    } else {
        let oid = commits[0].0@;
        let subject = subject_line(commits[0].1@);
        commit_diagnostics(
            rule,
            pattern,
            commits.drop_first(),
            if spec_regex_match(pattern, subject) != Some(true) {
                ds.push(diagnostic_spec(
                    rule,
                    None,
                    None,
                    "Commit subject does not match the configured pattern"@,
                    seq![
                        ("commit"@, EvidenceView::Text(oid)),
                        ("pattern"@, EvidenceView::Text(pattern)),
                        ("subject"@, EvidenceView::Text(subject)),
                    ],
                    "Update the commit subject to the team convention"@,
                    oid,
                ))
            } else {
                ds
            },
        )
    }
}

/// What the commit-message rule gives over the rule's parameters and commits.
pub open spec fn commits_outcome(rule: Seq<char>, parameters: Json, commits: Seq<(String, String)>) -> RuleOutcomeView {
    let pattern = commit_pattern(parameters);
    if spec_regex_match(pattern, seq![]) is None {
        RuleOutcomeView::Blocked(RuleError::InvalidPattern)
    } else if commits.len() == 0 {
        RuleOutcomeView::Skipped("The selected comparison contains no new commits"@)
    } else {
        RuleOutcomeView::Completed(commits.len(), commit_diagnostics(rule, pattern, commits, seq![]))
    }
}

/// What evaluating a rule gives, as plain values.
pub enum RuleOutcomeView {
    Completed(nat, Seq<DiagnosticView>),
    Skipped(Seq<char>),
    Blocked(RuleError),
}

/// The plain values of an outcome.
pub open spec fn outcome_view(o: RuleOutcome) -> RuleOutcomeView {
    match o {
        RuleOutcome::Completed { matched_entities, diagnostics } => RuleOutcomeView::Completed(
            matched_entities as nat,
            diagnostics_view(diagnostics@),
        ),
        RuleOutcome::Skipped { reason } => RuleOutcomeView::Skipped(reason@),
        RuleOutcome::Blocked { error } => RuleOutcomeView::Blocked(error),
    }
}

fn commit_pattern_exec(parameters: &Json) -> (res: String)
    ensures
        res@ == commit_pattern(*parameters),
{
    match crate::json::get(parameters, "pattern") {
        Some(Json::Str(p)) => text_of(p.as_str()),
        _ => text_of(DEFAULT_COMMIT_PATTERN),
    }
}

fn subject_line_exec(message: &str) -> (res: String)
    ensures
        res@ == subject_line(message@),
{
    let chars = crate::text::chars_of(message);
    let ls = crate::text::split_lines(&chars);
    if ls.len() > 0 {
        assert(crate::text::views(ls@)[0] == ls@[0]@);
        crate::text::string_of(ls[0].as_slice())
    } else {
        String::new()
    }
}

#[verifier::loop_isolation(false)]
fn commits_exec(rule: &str, parameters: &Json, commits: &Vec<(String, String)>) -> (res: RuleOutcome)
    ensures
        outcome_view(res) == commits_outcome(rule@, *parameters, commits@),
{
    proof {
        reveal_strlit("");
    }
    let pattern = commit_pattern_exec(parameters);
    if regex_match(pattern.as_str(), "").is_none() {
        assert(""@ =~= seq![]);
        return RuleOutcome::Blocked { error: RuleError::InvalidPattern };
    }
    assert(""@ =~= seq![]);
    if commits.len() == 0 {
        return RuleOutcome::Skipped { reason: text_of("The selected comparison contains no new commits") };
    }
    let mut ds: Vec<Diagnostic> = Vec::new();
    let mut i: usize = 0;
    assert(commits@.skip(0) =~= commits@);
    assert(diagnostics_view(ds@) =~= seq![]);
    while i < commits.len()
        invariant
            0 <= i <= commits@.len(),
            pattern@ == commit_pattern(*parameters),
            commit_diagnostics(rule@, pattern@, commits@, seq![]) == commit_diagnostics(
                rule@,
                pattern@,
                commits@.skip(i as int),
                diagnostics_view(ds@),
            ),
        decreases commits@.len() - i,
    {
        assert(commits@.skip(i as int).drop_first() =~= commits@.skip(i + 1));
        assert(commits@.skip(i as int)[0] == commits@[i as int]);
        let oid = &commits[i].0;
        let subject = subject_line_exec(commits[i].1.as_str());
        if regex_match(pattern.as_str(), subject.as_str()) != Some(true) {
            let evidence = vec![
                (text_of("commit"), Evidence::Text(text_of(oid.as_str()))),
                (text_of("pattern"), Evidence::Text(text_of(pattern.as_str()))),
                (text_of("subject"), Evidence::Text(text_of(subject.as_str()))),
            ];
            let ghost ev = evidence@.map_values(|p: (String, Evidence)| (p.0@, evidence_view(p.1)));
            assert(ev =~= seq![
                ("commit"@, EvidenceView::Text(oid@)),
                ("pattern"@, EvidenceView::Text(pattern@)),
                ("subject"@, EvidenceView::Text(subject@)),
            ]);
            let d = diagnostic(
                rule,
                None,
                None,
                text_of("Commit subject does not match the configured pattern"),
                evidence,
                "Update the commit subject to the team convention",
                oid.as_str(),
            );
            let ghost before = diagnostics_view(ds@);
            ds.push(d);
            assert(diagnostics_view(ds@) =~= before.push(diagnostic_view(d)));
        }
        i = i + 1;
    }
    assert(commits@.skip(i as int) =~= seq![]);
    RuleOutcome::Completed { matched_entities: commits.len(), diagnostics: ds }
}

/// What evaluating rule `id` with implementation `implementation` gives, when no
/// provenance, Git or project facts are supplied.
pub open spec fn rule_outcome(id: Seq<char>, implementation: Seq<char>, setting: RuleSetting, snapshot: Snapshot) -> RuleOutcomeView {
    rule_outcome_with_projects(id, implementation, setting, snapshot, seq![])
}

/// What evaluating rule `id` with implementation `implementation` gives, with
/// the project facts `projects` and no provenance or Git facts.
pub open spec fn rule_outcome_with_projects(
    id: Seq<char>,
    implementation: Seq<char>,
    setting: RuleSetting,
    snapshot: Snapshot,
    projects: Seq<crate::maven_usage::ProjectFacts>,
) -> RuleOutcomeView {
    if setting.provenance_required {
        RuleOutcomeView::Blocked(RuleError::ProvenanceUnavailable)
    } else if implementation == "line-ending"@ {
        let (m, ds) = line_endings(snapshot, id, snapshot.changes@, 0, seq![]);
        RuleOutcomeView::Completed(m, ds)
    } else if implementation == "commit-message"@ {
        commits_outcome(id, setting.parameters, snapshot.commits@)
    } else if implementation == "diff-size"@ {
        match diff_size_outcome(id, setting.parameters, snapshot.changes@) {
            Err(e) => RuleOutcomeView::Blocked(e),
            Ok((m, ds)) => RuleOutcomeView::Completed(m, ds),
        }
    } else if implementation == "file-pattern"@ {
        match crate::file_patterns::file_pattern_outcome(id, setting.parameters, snapshot.changes@, snapshot.files@) {
            Err(e) => RuleOutcomeView::Blocked(e),
            Ok((m, ds)) => RuleOutcomeView::Completed(m, ds),
        }
    } else if implementation == "shell-shebang"@ || implementation == "shell-commented-code"@ {
        match crate::shell_conventions::shell_outcome(implementation, id, setting.parameters, snapshot.changes@, snapshot.files@) {
            Err(e) => RuleOutcomeView::Blocked(e),
            Ok((m, ds)) => RuleOutcomeView::Completed(m, ds),
        }
    } else if implementation == "module-boundary"@ {
        match crate::project_rules::module_boundary_outcome(
            id,
            setting.parameters,
            snapshot.files@,
            snapshot.content_digest@,
            projects,
        ) {
            Err(e) => RuleOutcomeView::Blocked(e),
            Ok((m, ds)) => RuleOutcomeView::Completed(m, ds),
        }
    } else if implementation == "source-pattern"@ {
        match crate::source_patterns::source_patterns_outcome(id, setting.parameters, snapshot.changes@, snapshot.files@) {
            Err(e) => RuleOutcomeView::Blocked(e),
            Ok((m, ds)) => RuleOutcomeView::Completed(m, ds),
        }
    } else {
        RuleOutcomeView::Blocked(RuleError::UnknownRule)
    }
}

/// Evaluate rule `id` with the implementation named `implementation`.
pub fn evaluate_as(id: &str, implementation: &str, setting: &RuleSetting, snapshot: &Snapshot) -> (res: RuleOutcome)
    requires
        added_lines_total(snapshot.changes@) <= usize::MAX,
    ensures
        outcome_view(res) == rule_outcome(id@, implementation@, *setting, *snapshot),
{
    let none: Vec<crate::maven_usage::ProjectFacts> = Vec::new();
    let res = evaluate_with_projects(id, implementation, setting, snapshot, &none);
    assert(none@ =~= seq![]);
    res
}

/// Evaluate rule `id` with the implementation named `implementation` and the
/// project facts `projects`.
pub fn evaluate_with_projects(
    id: &str,
    implementation: &str,
    setting: &RuleSetting,
    snapshot: &Snapshot,
    projects: &Vec<crate::maven_usage::ProjectFacts>,
) -> (res: RuleOutcome)
    requires
        added_lines_total(snapshot.changes@) <= usize::MAX,
    ensures
        outcome_view(res) == rule_outcome_with_projects(id@, implementation@, *setting, *snapshot, projects@),
{
    if setting.provenance_required {
        return RuleOutcome::Blocked { error: RuleError::ProvenanceUnavailable };
    }
    let name = crate::text::chars_of(implementation);
    if crate::text::text_is(&name, "line-ending") {
        let (matched, diagnostics) = line_endings_exec(snapshot, id);
        RuleOutcome::Completed { matched_entities: matched, diagnostics }
    } else if crate::text::text_is(&name, "commit-message") {
        commits_exec(id, &setting.parameters, &snapshot.commits)
    } else if crate::text::text_is(&name, "diff-size") {
        match diff_size_exec(id, &setting.parameters, &snapshot.changes) {
            Err(e) => RuleOutcome::Blocked { error: e },
            Ok((matched, diagnostics)) => RuleOutcome::Completed { matched_entities: matched, diagnostics },
        }
    } else if crate::text::text_is(&name, "file-pattern") {
        match crate::file_patterns::file_pattern(id, &setting.parameters, &snapshot.changes, &snapshot.files) {
            Err(e) => RuleOutcome::Blocked { error: e },
            Ok((matched, diagnostics)) => RuleOutcome::Completed { matched_entities: matched, diagnostics },
        }
    } else if crate::text::text_is(&name, "shell-shebang") || crate::text::text_is(&name, "shell-commented-code") {
        match crate::shell_conventions::shell_conventions(
            implementation,
            id,
            &setting.parameters,
            &snapshot.changes,
            &snapshot.files,
        ) {
            Err(e) => RuleOutcome::Blocked { error: e },
            Ok((matched, diagnostics)) => RuleOutcome::Completed { matched_entities: matched, diagnostics },
        }
    } else if crate::text::text_is(&name, "module-boundary") {
        match crate::project_rules::module_boundary(
            id,
            &setting.parameters,
            &snapshot.files,
            &snapshot.content_digest,
            projects,
        ) {
            Err(e) => RuleOutcome::Blocked { error: e },
            Ok((matched, diagnostics)) => RuleOutcome::Completed { matched_entities: matched, diagnostics },
        }
    } else if crate::text::text_is(&name, "source-pattern") {
        match crate::source_patterns::source_patterns(id, &setting.parameters, &snapshot.changes, &snapshot.files) {
            Err(e) => RuleOutcome::Blocked { error: e },
            Ok((matched, diagnostics)) => RuleOutcome::Completed { matched_entities: matched, diagnostics },
        }
    } else {
        RuleOutcome::Blocked { error: RuleError::UnknownRule }
    }
}

/// Evaluate rule `id` with its own implementation.
pub fn evaluate(id: &str, setting: &RuleSetting, snapshot: &Snapshot) -> (res: RuleOutcome)
    requires
        added_lines_total(snapshot.changes@) <= usize::MAX,
    ensures
        outcome_view(res) == rule_outcome(id@, id@, *setting, *snapshot),
{
    evaluate_as(id, id, setting, snapshot)
}

} // verus!

verus! {

/// The line-ending style tells the four kinds of file apart: bytes with both a
/// CRLF and a bare LF are `mixed`; bytes whose every LF follows a CR are `crlf`;
/// bytes with a bare LF and no CRLF are `lf`; bytes without LF are `none`; and
/// these four styles are distinct.
pub proof fn line_ending_styles(b: Seq<u8>)
    ensures
        ((exists|i: int| 0 < i < b.len() && #[trigger] b[i] == 10 && b[i - 1] == 13) && (exists|j: int|
            0 <= j < b.len() && #[trigger] b[j] == 10 && (j == 0 || b[j - 1] != 13))) ==> spec_eol(b) == "mixed"@,
        ((exists|i: int| 0 < i < b.len() && #[trigger] b[i] == 10 && b[i - 1] == 13) && (forall|j: int|
            0 <= j < b.len() && #[trigger] b[j] == 10 ==> j > 0 && b[j - 1] == 13)) ==> spec_eol(b) == "crlf"@,
        ((forall|i: int| 0 < i < b.len() && #[trigger] b[i] == 10 ==> b[i - 1] != 13) && (exists|j: int|
            0 <= j < b.len() && #[trigger] b[j] == 10)) ==> spec_eol(b) == "lf"@,
        (forall|j: int| 0 <= j < b.len() ==> #[trigger] b[j] != 10) ==> spec_eol(b) == "none"@,
        "mixed"@ != "lf"@ && "mixed"@ != "crlf"@ && "mixed"@ != "none"@ && "lf"@ != "crlf"@ && "lf"@ != "none"@
            && "crlf"@ != "none"@,
{
    reveal_strlit("mixed");
    reveal_strlit("lf");
    reveal_strlit("crlf");
    reveal_strlit("none");
    assert("mixed"@[0] != "lf"@[0]);
    assert("mixed"@[0] != "crlf"@[0]);
    assert("mixed"@[0] != "none"@[0]);
    assert("lf"@[0] != "none"@[0]);
    assert("crlf"@[0] != "none"@[0]);
    assert("lf"@.len() != "crlf"@.len());
    if exists|j: int| 0 <= j < b.len() && b[j] == 10 {
        let j = choose|j: int| 0 <= j < b.len() && b[j] == 10;
        if j > 0 && b[j - 1] == 13 {
            assert(has_crlf(b));
        } else {
            assert(has_lf(b));
        }
    }
    if (forall|i: int| 0 < i < b.len() && #[trigger] b[i] == 10 ==> b[i - 1] != 13) {
        assert(!has_crlf(b));
    }
    if (forall|j: int| 0 <= j < b.len() && #[trigger] b[j] == 10 ==> j > 0 && b[j - 1] == 13) {
        assert(!has_lf(b));
    }
    if (forall|j: int| 0 <= j < b.len() ==> #[trigger] b[j] != 10) {
        assert(!has_lf(b));
        assert(!has_crlf(b));
    }
}

} // verus!
