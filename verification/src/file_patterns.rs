//! The file-pattern convention: a configured expression must not match any line
//! of an added file of the configured languages and paths.

use vstd::prelude::*;
use crate::json::{as_str, member, Json};
use crate::provenance::File;
use crate::rules::{
    diagnostic_spec, diagnostics_view, file_at, Change, Diagnostic, DiagnosticView, Evidence, EvidenceView, RuleError,
    spec_regex_match,
};
use crate::syntax::{spec_language, Range};
use crate::text::lines;
use crate::reports::sarif_locations::string_views;

verus! {

/// Most diagnostics one rule may report.
pub const MAX_DIAGNOSTICS: usize = 10000;

/// The message and fix of the file-pattern rule `id`.
pub open spec fn guidance(id: Seq<char>) -> (Seq<char>, Seq<char>) {
    if id == "no-hardcoded-secrets"@ {
        (
            "Added Java file contains a configured literal credential pattern"@,
            "Move the credential out of source and review any exposed value"@,
        )
    } else if id == "no-printf-log"@ {
        ("Added C/C++ file contains a printf/fprintf call pattern"@, "Use the project's structured logging interface"@)
    } else if id == "no-unsafe-string"@ {
        (
            "Added C/C++ file contains an unsafe string API call pattern"@,
            "Use a length-bounded API and verify the destination capacity"@,
        )
    } else if id == "no-test-sleep"@ {
        (
            "Added test file contains a sleep call pattern"@,
            "Control test timing with a mock, callback, or synchronization primitive"@,
        )
    } else if id == "no-bare-except"@ {
        (
            "Added Python file contains a bare except clause pattern"@,
            "Catch a specific exception or document a deliberate broad exception boundary"@,
        )
    } else if id == "no-os-path"@ {
        (
            "Added Python file contains a configured os.path call pattern"@,
            "Use pathlib when it fits this repository's path convention"@,
        )
    } else if id == "no-print"@ {
        (
            "Added Python file contains a print call pattern"@,
            "Use a logger for production diagnostics or narrow this rule's paths"@,
        )
    } else if id == "no-emoji"@ {
        (
            "Added file contains a character in the configured emoji ranges"@,
            "Remove the character or narrow this repository's style rule"@,
        )
    } else {
        (
            "Added file contains a forbidden source pattern"@,
            "Remove the forbidden pattern or adjust the rule's intended scope"@,
        )
    }
}

/// The message and fix that the file-pattern rule `id` reports.
pub fn file_pattern_guidance(id: &str) -> (res: (&'static str, &'static str))
    ensures
        (res.0@, res.1@) == guidance(id@),
{
    let i = crate::text::chars_of(id);
    if crate::text::text_is(&i, "no-hardcoded-secrets") {
        (
            "Added Java file contains a configured literal credential pattern",
            "Move the credential out of source and review any exposed value",
        )
    } else if crate::text::text_is(&i, "no-printf-log") {
        ("Added C/C++ file contains a printf/fprintf call pattern", "Use the project's structured logging interface")
    } else if crate::text::text_is(&i, "no-unsafe-string") {
        (
            "Added C/C++ file contains an unsafe string API call pattern",
            "Use a length-bounded API and verify the destination capacity",
        )
    } else if crate::text::text_is(&i, "no-test-sleep") {
        (
            "Added test file contains a sleep call pattern",
            "Control test timing with a mock, callback, or synchronization primitive",
        )
    } else if crate::text::text_is(&i, "no-bare-except") {
        (
            "Added Python file contains a bare except clause pattern",
            "Catch a specific exception or document a deliberate broad exception boundary",
        )
    } else if crate::text::text_is(&i, "no-os-path") {
        (
            "Added Python file contains a configured os.path call pattern",
            "Use pathlib when it fits this repository's path convention",
        )
    } else if crate::text::text_is(&i, "no-print") {
        ("Added Python file contains a print call pattern", "Use a logger for production diagnostics or narrow this rule's paths")
    } else if crate::text::text_is(&i, "no-emoji") {
        (
            "Added file contains a character in the configured emoji ranges",
            "Remove the character or narrow this repository's style rule",
        )
    } else {
        ("Added file contains a forbidden source pattern", "Remove the forbidden pattern or adjust the rule's intended scope")
    }
}

/// The position of the last `c` in `s`.
pub open spec fn last_index(s: Seq<char>, c: char) -> Option<int>
    decreases s.len(),
{
    if s.len() == 0 {
        None
    } else if s.last() == c {
        Some(s.len() - 1)
    } else {
        last_index(s.drop_last(), c)
    }
}

/// The text after the last `.` of a path (`str::rsplit_once('.')`).
pub open spec fn dot_extension(path: Seq<char>) -> Option<Seq<char>> {
    match last_index(path, '.') {
        Some(k) => Some(path.skip(k + 1)),
        None => None,
    }
}

/// A language that the source analysis names.
pub open spec fn named_language(l: Seq<char>) -> bool {
    l == "java"@ || l == "python"@ || l == "typescript"@ || l == "go"@ || l == "rust"@ || l == "shell"@
}

/// The file at `path` is in language `l`: C and C++ by extension, the others
/// as the source analysis detects them.
pub open spec fn in_language(path: Seq<char>, l: Seq<char>) -> bool {
    if l == "c"@ {
        dot_extension(path) == Some("c"@) || dot_extension(path) == Some("h"@)
    } else if l == "cpp"@ {
        match dot_extension(path) {
            Some(e) => e == "cc"@ || e == "cpp"@ || e == "cxx"@ || e == "h"@ || e == "hh"@ || e == "hpp"@
                || e == "hxx"@,
            None => false,
        }
    } else {
        spec_language(path) == Some(l)
    }
}

/// The file at `path` is in one of `languages`, or no language is configured.
pub open spec fn matches_languages(path: Seq<char>, languages: Seq<Seq<char>>) -> bool {
    languages.len() == 0 || exists|i: int| 0 <= i < languages.len() && in_language(path, #[trigger] languages[i])
}

/// The texts of a JSON array of strings.
pub open spec fn string_list(j: Json) -> Option<Seq<Seq<char>>> {
    match j {
        Json::Array(items) => if forall|i: int| 0 <= i < items@.len() ==> (#[trigger] items@[i]) is Str {
            Some(items@.map_values(|v: Json| as_str(v)->0))
        } else {
            None
        },
        _ => None,
    }
}

/// The configured path globs: none when the parameter is absent.
pub open spec fn paths_parameter(parameters: Json) -> Result<Seq<Seq<char>>, RuleError> {
    match member(parameters, "paths"@) {
        None => Ok(seq![]),
        Some(v) => match string_list(v) {
            None => Err(RuleError::InvalidParameter),
            Some(l) => Ok(l),
        },
    }
}

/// The configured languages, each C, C++ or a language the analysis names.
pub open spec fn languages_parameter(parameters: Json) -> Result<Seq<Seq<char>>, RuleError> {
    match member(parameters, "languages"@) {
        None => Err(RuleError::MissingParameter),
        Some(v) => match string_list(v) {
            None => Err(RuleError::InvalidParameter),
            Some(l) => if exists|i: int| 0 <= i < l.len() && !(#[trigger] l[i] == "c"@ || l[i] == "cpp"@ || named_language(l[i])) {
                Err(RuleError::UnsupportedLanguage)
            } else {
                Ok(l)
            },
        },
    }
}

/// Whether `globset` builds a set from the glob patterns `globs`.
pub uninterp spec fn spec_globs_valid(globs: Seq<Seq<char>>) -> bool;

/// Whether some glob of the valid set `globs` matches `path`.
pub uninterp spec fn spec_globs_match(globs: Seq<Seq<char>>, path: Seq<char>) -> bool;

/// `globset::Glob::new` for each pattern, then `GlobSetBuilder::build`:
/// whether every pattern is a glob and the set builds. Named, not restated.
#[verifier::external_body]
pub(crate) fn globs_valid(globs: &Vec<String>) -> (res: bool)
    ensures
        res == spec_globs_valid(string_views(globs@)),
{
    let mut builder = globset::GlobSetBuilder::new();
    for g in globs {
        match globset::Glob::new(g) {
            Ok(glob) => {
                builder.add(glob);
            },
            Err(_) => return false,
        }
    }
    builder.build().is_ok()
}

/// `GlobSet::is_match(path)` on the set built from `globs`: whether some glob
/// matches the path. Named, not restated.
#[verifier::external_body]
pub(crate) fn globs_match(globs: &Vec<String>, path: &str) -> (res: bool)
    requires
        spec_globs_valid(string_views(globs@)),
    ensures
        res == spec_globs_match(string_views(globs@), path@),
{
    let mut builder = globset::GlobSetBuilder::new();
    for g in globs {
        if let Ok(glob) = globset::Glob::new(g) {
            builder.add(glob);
        }
    }
    match builder.build() {
        Ok(set) => set.is_match(path),
        Err(_) => false,
    }
}

/// An added, included file of the configured languages and paths.
pub open spec fn selected(c: Change, languages: Seq<Seq<char>>, globs: Seq<Seq<char>>) -> bool {
    &&& c.kind@ == "added"@
    &&& matches_languages(c.path@, languages)
    &&& c.included
    &&& (globs.len() == 0 || spec_globs_match(globs, c.path@))
}

/// The selected changes among `changes` with their files, after `acc`.
pub open spec fn selection(
    changes: Seq<Change>,
    files: Seq<(String, File)>,
    languages: Seq<Seq<char>>,
    globs: Seq<Seq<char>>,
    acc: Seq<(Seq<char>, Seq<u8>)>,
) -> Result<Seq<(Seq<char>, Seq<u8>)>, RuleError>
    decreases changes.len(),
{
    if changes.len() == 0 {
        Ok(acc)
    } else if !selected(changes[0], languages, globs) {
        selection(changes.drop_first(), files, languages, globs, acc)
    } else {
        match file_at(files, changes[0].path@) {
            None => Err(RuleError::FileAbsent),
            Some(f) => selection(changes.drop_first(), files, languages, globs, acc.push((changes[0].path@, f.bytes@))),
        }
    }
}

/// The diagnostic of a matching line `n` of `path`.
pub open spec fn line_diagnostic(
    rule: Seq<char>,
    pattern: Seq<char>,
    path: Seq<char>,
    n: nat,
) -> DiagnosticView {
    diagnostic_spec(
        rule,
        Some(path),
        Some(Range { start_line: n as usize, end_line: n as usize }),
        guidance(rule).0,
        seq![("assertion"@, EvidenceView::Text("forbid_pattern"@)), ("pattern"@, EvidenceView::Text(pattern))],
        guidance(rule).1,
        path + ":"@ + crate::text::decimal_text(n) + ":forbid_pattern"@,
    )
}

/// The lines `ls` of `path`, numbered from `n`, scanned after `count` matches
/// and the diagnostics `ds`.
pub open spec fn line_scan(
    rule: Seq<char>,
    pattern: Seq<char>,
    path: Seq<char>,
    ls: Seq<Seq<char>>,
    n: nat,
    count: nat,
    ds: Seq<DiagnosticView>,
) -> Result<(nat, Seq<DiagnosticView>), RuleError>
    decreases ls.len(),
{
    if ls.len() == 0 {
        Ok((count, ds))
    } else if spec_regex_match(pattern, ls[0]) == Some(true) {
        if count >= MAX_DIAGNOSTICS {
            Err(RuleError::TooManyDiagnostics)
        } else {
            line_scan(rule, pattern, path, ls.drop_first(), n + 1, count + 1, ds.push(line_diagnostic(rule, pattern, path, n)))
        }
    } else {
        line_scan(rule, pattern, path, ls.drop_first(), n + 1, count, ds)
    }
}

/// The selected files `sel` scanned after `count` matches and the diagnostics `ds`.
pub open spec fn files_scan(
    rule: Seq<char>,
    pattern: Seq<char>,
    sel: Seq<(Seq<char>, Seq<u8>)>,
    count: nat,
    ds: Seq<DiagnosticView>,
) -> Result<Seq<DiagnosticView>, RuleError>
    decreases sel.len(),
{
    if sel.len() == 0 {
        Ok(ds)
    } else if !vstd::utf8::valid_utf8(sel[0].1) {
        Err(RuleError::NotUtf8)
    } else {
        match line_scan(rule, pattern, sel[0].0, lines(vstd::utf8::decode_utf8(sel[0].1)), 1, count, ds) {
            Err(e) => Err(e),
            Ok((c, d)) => files_scan(rule, pattern, sel.drop_first(), c, d),
        }
    }
}

/// What the file-pattern rule `rule` gives over its parameters and the snapshot:
/// how many files it selected and their diagnostics.
pub open spec fn file_pattern_outcome(
    rule: Seq<char>,
    parameters: Json,
    changes: Seq<Change>,
    files: Seq<(String, File)>,
) -> Result<(nat, Seq<DiagnosticView>), RuleError> {
    match member(parameters, "pattern"@) {
        None => Err(RuleError::MissingParameter),
        Some(p) => match as_str(p) {
            None => Err(RuleError::MissingParameter),
            Some(pattern) => if spec_regex_match(pattern, seq![]) is None {
                Err(RuleError::InvalidPattern)
            } else {
                match languages_parameter(parameters) {
                    Err(e) => Err(e),
                    Ok(languages) => match paths_parameter(parameters) {
                        Err(e) => Err(e),
                        Ok(globs) => if !spec_globs_valid(globs) {
                            Err(RuleError::InvalidGlob)
                        } else {
                            match selection(changes, files, languages, globs, seq![]) {
                                Err(e) => Err(e),
                                Ok(sel) => match files_scan(rule, pattern, sel, 0, seq![]) {
                                    Err(e) => Err(e),
                                    Ok(ds) => Ok((sel.len(), ds)),
                                },
                            }
                        },
                    },
                }
            },
        },
    }
}

} // verus!

verus! {

/// The texts of a JSON array of strings.
pub(crate) fn string_list_exec(j: &Json) -> (res: Option<Vec<String>>)
    ensures
        match string_list(*j) {
            Some(l) => res matches Some(v) && string_views(v@) == l,
            None => res is None,
        },
{
    match j {
        Json::Array(items) => {
            let mut out: Vec<String> = Vec::new();
            let mut i: usize = 0;
            while i < items.len()
                invariant
                    0 <= i <= items@.len(),
                    *j == Json::Array(*items),
                    forall|q: int| 0 <= q < i ==> (#[trigger] items@[q]) is Str,
                    string_views(out@) == items@.take(i as int).map_values(|v: Json| as_str(v)->0),
                decreases items@.len() - i,
            {
                match &items[i] {
                    Json::Str(s) => {
                        let ghost before = string_views(out@);
                        out.push(s.clone());
                        assert(string_views(out@) =~= before.push(s@));
                        assert(items@.take(i + 1).map_values(|v: Json| as_str(v)->0) =~= items@.take(
                            i as int,
                        ).map_values(|v: Json| as_str(v)->0).push(s@));
                    },
                    _ => {
                        assert(!(items@[i as int] is Str));
                        return None;
                    },
                }
                i = i + 1;
            }
            assert(items@.take(i as int) =~= items@);
            Some(out)
        },
        _ => None,
    }
}

/// The configured path globs.
pub(crate) fn paths_parameter_exec(parameters: &Json) -> (res: Result<Vec<String>, RuleError>)
    ensures
        match paths_parameter(*parameters) {
            Ok(l) => res matches Ok(v) && string_views(v@) == l,
            Err(e) => res is Err && res->Err_0 == e,
        },
{
    match crate::json::get(parameters, "paths") {
        None => {
            let v: Vec<String> = Vec::new();
            assert(string_views(v@) =~= seq![]);
            Ok(v)
        },
        Some(p) => match string_list_exec(p) {
            None => Err(RuleError::InvalidParameter),
            Some(l) => Ok(l),
        },
    }
}

/// Whether `l` is C, C++ or a language the analysis names.
fn supported_language(l: &String) -> (res: bool)
    ensures
        res == (l@ == "c"@ || l@ == "cpp"@ || named_language(l@)),
{
    let c = crate::text::chars_of(l.as_str());
    crate::text::text_is(&c, "c") || crate::text::text_is(&c, "cpp") || crate::text::text_is(&c, "java")
        || crate::text::text_is(&c, "python") || crate::text::text_is(&c, "typescript")
        || crate::text::text_is(&c, "go") || crate::text::text_is(&c, "rust") || crate::text::text_is(&c, "shell")
}

/// The configured languages.
fn languages_parameter_exec(parameters: &Json) -> (res: Result<Vec<String>, RuleError>)
    ensures
        match languages_parameter(*parameters) {
            Ok(l) => res matches Ok(v) && string_views(v@) == l,
            Err(e) => res is Err && res->Err_0 == e,
        },
{
    let v = match crate::json::get(parameters, "languages") {
        None => return Err(RuleError::MissingParameter),
        Some(p) => match string_list_exec(p) {
            None => return Err(RuleError::InvalidParameter),
            Some(l) => l,
        },
    };
    let ghost l = string_views(v@);
    let mut i: usize = 0;
    while i < v.len()
        invariant
            0 <= i <= v@.len(),
            l == string_views(v@),
            match member(*parameters, "languages"@) {
                Some(p) => string_list(p) == Some(l),
                None => false,
            },
            forall|q: int| 0 <= q < i ==> (#[trigger] l[q] == "c"@ || l[q] == "cpp"@ || named_language(l[q])),
        decreases v@.len() - i,
    {
        if !supported_language(&v[i]) {
            assert(l[i as int] == v@[i as int]@);
            return Err(RuleError::UnsupportedLanguage);
        }
        i = i + 1;
    }
    Ok(v)
}

/// The text after the last `.` of a path.
fn dot_extension_exec(path: &[char]) -> (res: Option<Vec<char>>)
    ensures
        match dot_extension(path@) {
            Some(e) => res matches Some(v) && v@ == e,
            None => res is None,
        },
{
    let mut k = path.len();
    assert(path@.take(k as int) =~= path@);
    while k > 0 && path[k - 1] != '.'
        invariant
            k <= path@.len(),
            last_index(path@, '.') == last_index(path@.take(k as int), '.'),
        decreases k,
    {
        assert(path@.take(k as int).drop_last() =~= path@.take(k - 1));
        k = k - 1;
    }
    if k == 0 {
        assert(path@.take(0) =~= seq![]);
        return None;
    }
    assert(last_index(path@.take(k as int), '.') == Some(k - 1));
    Some(crate::text::copy_range(path, k, path.len()))
}

/// Whether the file at `path` is in language `l`.
fn in_language_exec(path: &str, l: &String) -> (res: bool)
    ensures
        res == in_language(path@, l@),
{
    let lc = crate::text::chars_of(l.as_str());
    let pc = crate::text::chars_of(path);
    if crate::text::text_is(&lc, "c") {
        match dot_extension_exec(&pc) {
            Some(e) => crate::text::text_is(&e, "c") || crate::text::text_is(&e, "h"),
            None => false,
        }
    } else if crate::text::text_is(&lc, "cpp") {
        match dot_extension_exec(&pc) {
            Some(e) => crate::text::text_is(&e, "cc") || crate::text::text_is(&e, "cpp") || crate::text::text_is(&e, "cxx")
                || crate::text::text_is(&e, "h") || crate::text::text_is(&e, "hh") || crate::text::text_is(&e, "hpp")
                || crate::text::text_is(&e, "hxx"),
            None => false,
        }
    } else {
        match crate::syntax::language(path) {
            Some(found) => crate::text::text_is(&crate::text::chars_of(found), l.as_str()) && {
                proof {
                    assert(lc@ == l@);
                }
                true
            },
            None => false,
        }
    }
}

/// Whether the file at `path` is in one of `languages`.
pub fn matches_file_language(path: &str, languages: &Vec<String>) -> (res: bool)
    ensures
        res == matches_languages(path@, string_views(languages@)),
{
    if languages.len() == 0 {
        return true;
    }
    let ghost l = string_views(languages@);
    let mut i: usize = 0;
    while i < languages.len()
        invariant
            0 <= i <= languages@.len(),
            l == string_views(languages@),
            forall|q: int| 0 <= q < i ==> !in_language(path@, #[trigger] l[q]),
        decreases languages@.len() - i,
    {
        if in_language_exec(path, &languages[i]) {
            assert(in_language(path@, l[i as int]));
            return true;
        }
        i = i + 1;
    }
    false
}

} // verus!

verus! {

/// The paths and contents of selected files.
pub open spec fn selection_view(v: Seq<(&String, &File)>) -> Seq<(Seq<char>, Seq<u8>)> {
    v.map_values(|p: (&String, &File)| (p.0@, p.1.bytes@))
}

/// The selected changes with their files.
fn selection_exec<'a>(
    changes: &'a Vec<Change>,
    files: &'a Vec<(String, File)>,
    languages: &Vec<String>,
    globs: &Vec<String>,
) -> (res: Result<Vec<(&'a String, &'a File)>, RuleError>)
    requires
        spec_globs_valid(string_views(globs@)),
    ensures
        match selection(changes@, files@, string_views(languages@), string_views(globs@), seq![]) {
            Ok(sel) => res matches Ok(v) && selection_view(v@) == sel,
            Err(e) => res is Err && res->Err_0 == e,
        },
{
    let ghost ls = string_views(languages@);
    let ghost gs = string_views(globs@);
    let mut out: Vec<(&'a String, &'a File)> = Vec::new();
    let mut i: usize = 0;
    assert(changes@.skip(0) =~= changes@);
    assert(selection_view(out@) =~= seq![]);
    while i < changes.len()
        invariant
            0 <= i <= changes@.len(),
            ls == string_views(languages@),
            gs == string_views(globs@),
            spec_globs_valid(gs),
            selection(changes@, files@, ls, gs, seq![]) == selection(
                changes@.skip(i as int),
                files@,
                ls,
                gs,
                selection_view(out@),
            ),
        decreases changes@.len() - i,
    {
        assert(changes@.skip(i as int)[0] == changes@[i as int]);
        assert(changes@.skip(i as int).drop_first() =~= changes@.skip(i + 1));
        let c = &changes[i];
        let kind = crate::text::chars_of(c.kind.as_str());
        let chosen = crate::text::text_is(&kind, "added") && matches_file_language(c.path.as_str(), languages)
            && c.included && (globs.len() == 0 || globs_match(globs, c.path.as_str()));
        if chosen {
            match crate::rules::file_at_exec(files, c.path.as_str()) {
                None => return Err(RuleError::FileAbsent),
                Some(f) => {
                    let ghost before = selection_view(out@);
                    out.push((&c.path, f));
                    assert(selection_view(out@) =~= before.push((c.path@, f.bytes@)));
                },
            }
        }
        i = i + 1;
    }
    assert(changes@.skip(i as int) =~= seq![]);
    Ok(out)
}

/// The diagnostic of matching line `n` of `path`.
fn line_diagnostic_exec(rule: &str, pattern: &String, path: &String, n: usize) -> (res: Diagnostic)
    ensures
        crate::rules::diagnostic_view(res) == line_diagnostic(rule@, pattern@, path@, n as nat),
{
    let (message, fix) = file_pattern_guidance(rule);
    let mut identity = crate::text::chars_of(path.as_str());
    identity.push(':');
    let number = crate::text::decimal_string(n as u64);
    crate::text::extend_chars(&mut identity, &crate::text::chars_of(number.as_str()));
    crate::text::extend_chars(&mut identity, &crate::text::chars_of(":forbid_pattern"));
    proof {
        reveal_strlit(":");
        assert(identity@ =~= path@ + ":"@ + crate::text::decimal_text(n as nat) + ":forbid_pattern"@);
    }
    let identity_text = crate::text::string_of(&identity);
    let evidence = vec![
        (crate::rules::text_of("assertion"), Evidence::Text(crate::rules::text_of("forbid_pattern"))),
        (crate::rules::text_of("pattern"), Evidence::Text(pattern.clone())),
    ];
    assert(evidence@.map_values(|p: (String, Evidence)| (p.0@, crate::rules::evidence_view(p.1))) =~= seq![
        ("assertion"@, EvidenceView::Text("forbid_pattern"@)),
        ("pattern"@, EvidenceView::Text(pattern@)),
    ]);
    crate::rules::diagnostic(
        rule,
        Some(path.as_str()),
        Some(Range { start_line: n, end_line: n }),
        crate::rules::text_of(message),
        evidence,
        fix,
        identity_text.as_str(),
    )
}

/// Scan the lines of one file, numbered from 1.
fn scan_lines(
    rule: &str,
    pattern: &String,
    path: &String,
    ls: &Vec<Vec<char>>,
    count: &mut usize,
    ds: &mut Vec<Diagnostic>,
) -> (res: Result<(), RuleError>)
    requires
        *old(count) <= MAX_DIAGNOSTICS,
    ensures
        match line_scan(rule@, pattern@, path@, crate::text::views(ls@), 1, *old(count) as nat, diagnostics_view(old(ds)@)) {
            Ok((c, d)) => res is Ok && *final(count) as nat == c && diagnostics_view(final(ds)@) == d && c <= MAX_DIAGNOSTICS,
            Err(e) => res is Err && res->Err_0 == e,
        },
{
    let ghost all = crate::text::views(ls@);
    let ghost start = line_scan(rule@, pattern@, path@, all, 1, *count as nat, diagnostics_view(ds@));
    let hits = crate::rules::regex_match_all(pattern.as_str(), ls);
    let mut j: usize = 0;
    assert(all.skip(0) =~= all);
    while j < ls.len()
        invariant
            0 <= j <= ls@.len(),
            all == crate::text::views(ls@),
            *count <= MAX_DIAGNOSTICS,
            start == line_scan(rule@, pattern@, path@, all, 1, *old(count) as nat, diagnostics_view(old(ds)@)),
            start == line_scan(rule@, pattern@, path@, all.skip(j as int), (j + 1) as nat, *count as nat, diagnostics_view(ds@)),
            match hits {
                Some(v) => v@.len() == ls@.len() && forall|i: int|
                    0 <= i < ls@.len() ==> spec_regex_match(pattern@, (#[trigger] ls@[i])@) == Some(v@[i]),
                None => forall|i: int| 0 <= i < ls@.len() ==> spec_regex_match(pattern@, (#[trigger] ls@[i])@) is None,
            },
        decreases ls@.len() - j,
    {
        assert(all.skip(j as int)[0] == ls@[j as int]@);
        assert(all.skip(j as int).drop_first() =~= all.skip(j + 1));
        let hit = match &hits {
            Some(v) => v[j],
            None => false,
        };
        assert(hit == (spec_regex_match(pattern@, ls@[j as int]@) == Some(true)));
        if hit {
            if *count >= MAX_DIAGNOSTICS {
                return Err(RuleError::TooManyDiagnostics);
            }
            let d = line_diagnostic_exec(rule, pattern, path, j + 1);
            let ghost before = diagnostics_view(ds@);
            ds.push(d);
            assert(diagnostics_view(ds@) =~= before.push(crate::rules::diagnostic_view(d)));
            *count = *count + 1;
        }
        j = j + 1;
    }
    assert(all.skip(j as int) =~= seq![]);
    Ok(())
}

/// Evaluate the file-pattern rule `rule` over its parameters and the snapshot:
/// the number of selected files and the diagnostics of their matching lines.
#[verifier::loop_isolation(false)]
pub fn file_pattern(rule: &str, parameters: &Json, changes: &Vec<Change>, files: &Vec<(String, File)>) -> (res: Result<(usize, Vec<Diagnostic>), RuleError>)
    ensures
        match file_pattern_outcome(rule@, *parameters, changes@, files@) {
            Ok((m, ds)) => res matches Ok((n, v)) && n as nat == m && diagnostics_view(v@) == ds,
            Err(e) => res is Err && res->Err_0 == e,
        },
{
    proof {
        reveal_strlit("");
        assert(""@ =~= seq![]);
    }
    let pattern = match crate::json::get(parameters, "pattern") {
        Some(Json::Str(p)) => p.clone(),
        _ => return Err(RuleError::MissingParameter),
    };
    if crate::rules::regex_match(pattern.as_str(), "").is_none() {
        return Err(RuleError::InvalidPattern);
    }
    let languages = languages_parameter_exec(parameters)?;
    let globs = paths_parameter_exec(parameters)?;
    if !globs_valid(&globs) {
        return Err(RuleError::InvalidGlob);
    }
    let sel = selection_exec(changes, files, &languages, &globs)?;
    let ghost sv = selection_view(sel@);
    let mut count: usize = 0;
    let mut ds: Vec<Diagnostic> = Vec::new();
    let mut i: usize = 0;
    assert(sv.skip(0) =~= sv);
    assert(diagnostics_view(ds@) =~= seq![]);
    while i < sel.len()
        invariant
            0 <= i <= sel@.len(),
            sv == selection_view(sel@),
            count <= MAX_DIAGNOSTICS,
            files_scan(rule@, pattern@, sv, 0, seq![]) == files_scan(rule@, pattern@, sv.skip(i as int), count as nat, diagnostics_view(ds@)),
        decreases sel@.len() - i,
    {
        assert(sv.skip(i as int)[0] == (sel@[i as int].0@, sel@[i as int].1.bytes@));
        assert(sv.skip(i as int).drop_first() =~= sv.skip(i + 1));
        let (path, file) = sel[i];
        let text = match crate::text::text_of_bytes(file.bytes.as_slice()) {
            None => return Err(RuleError::NotUtf8),
            Some(t) => t,
        };
        proof {
            vstd::utf8::encode_utf8_decode_utf8(text@);
        }
        let chars = crate::text::chars_of(text);
        let ls = crate::text::split_lines(&chars);
        if let Err(e) = scan_lines(rule, &pattern, path, &ls, &mut count, &mut ds) {
            return Err(e);
        }
        i = i + 1;
    }
    assert(sv.skip(i as int) =~= seq![]);
    Ok((sel.len(), ds))
}

} // verus!
