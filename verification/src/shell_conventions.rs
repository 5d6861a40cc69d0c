//! Shell conventions that a single-line expression cannot state: a first-line
//! interpreter directive on added scripts, and no block of three or more
//! consecutive code-like comments touching added lines.

use vstd::prelude::*;
use crate::json::Json;
use crate::provenance::File;
use crate::rules::{
    diagnostic_spec, diagnostics_view, file_at, Change, Diagnostic, DiagnosticView, Evidence, EvidenceView, RuleError,
    spec_regex_match,
};
use crate::file_patterns::{paths_parameter, spec_globs_match, spec_globs_valid};
use crate::syntax::{spec_language, Range};
use crate::text::{has_prefix, lines};
use crate::reports::sarif_locations::string_views;

verus! {

/// Most diagnostics the shell conventions report together.
pub const MAX_DIAGNOSTICS: usize = 10000;

/// The expression of a code-like comment: a comment that starts with a shell
/// keyword or an assignment.
pub open spec fn dead_code_pattern() -> Seq<char> {
    r"^\s*#\s*(?:(?:if|for|while|case|function|return|exit|local|export|readonly)\b|[A-Za-z_][A-Za-z0-9_]*\s*=)"@
}

/// A changed, included shell file of the configured paths, with its change and
/// contents.
pub type ShellFile = (Seq<char>, Change, Seq<u8>);

/// The shell files among `changes`, after `acc`.
pub open spec fn shell_selection(
    changes: Seq<Change>,
    files: Seq<(String, File)>,
    globs: Seq<Seq<char>>,
    acc: Seq<ShellFile>,
) -> Result<Seq<ShellFile>, RuleError>
    decreases changes.len(),
{
    if changes.len() == 0 {
        Ok(acc)
    } else {
        let c = changes[0];
        let rest = changes.drop_first();
        if c.kind@ == "deleted"@ || !c.included || !(globs.len() == 0 || spec_globs_match(globs, c.path@)) {
            shell_selection(rest, files, globs, acc)
        } else {
            match file_at(files, c.path@) {
                None => Err(RuleError::FileAbsent),
                Some(f) => if spec_language(c.path@) == Some("shell"@) {
                    shell_selection(rest, files, globs, acc.push((c.path@, c, f.bytes@)))
                } else {
                    shell_selection(rest, files, globs, acc)
                },
            }
        }
    }
}

/// The diagnostic of an added script without an interpreter directive.
pub open spec fn shebang_diagnostic(rule: Seq<char>, path: Seq<char>) -> DiagnosticView {
    diagnostic_spec(
        rule,
        Some(path),
        Some(Range { start_line: 1, end_line: 1 }),
        "Added Shell script has no first-line interpreter directive"@,
        seq![("assertion"@, EvidenceView::Text("require_shell_shebang"@))],
        "Add an appropriate #! interpreter directive on the first line"@,
        path + ":shebang"@,
    )
}

/// The shebang diagnostics of one script: one when an added script, or one
/// whose first line was added, does not start with `#!`.
pub open spec fn shebang_diagnostics(rule: Seq<char>, path: Seq<char>, c: Change, source: Seq<char>) -> Seq<DiagnosticView> {
    if !has_prefix(source, "#!"@) && (c.kind@ == "added"@ || c.added_lines@.contains(1usize)) {
        seq![shebang_diagnostic(rule, path)]
    } else {
        seq![]
    }
}

/// The diagnostic of the code-like comment block on lines `first + 1` to `last`.
pub open spec fn block_diagnostic(rule: Seq<char>, path: Seq<char>, first: nat, last: nat) -> DiagnosticView {
    let span = (last - first) as u64;
    diagnostic_spec(
        rule,
        Some(path),
        Some(Range { start_line: (first + 1) as usize, end_line: last as usize }),
        "Shell file contains three or more consecutive code-like comments"@,
        seq![
            ("assertion"@, EvidenceView::Text("forbid_commented_code_block"@)),
            ("lines"@, EvidenceView::Count(span)),
        ],
        "Remove dead code or rewrite the block as explanatory prose"@,
        path + ":"@ + crate::text::decimal_text(first + 1) + ":commented-code"@,
    )
}

/// Some line from `first + 1` to `last` was added.
pub open spec fn touches_added(added: Seq<usize>, first: nat, last: nat) -> bool {
    exists|k: int| 0 <= k < added.len() && first < #[trigger] added[k] && added[k] <= last
}

/// The block that ends before line index `i`, if it started at `start`: a
/// diagnostic when it spans three or more lines and touches an added line.
pub open spec fn close_block(
    rule: Seq<char>,
    path: Seq<char>,
    added: Seq<usize>,
    start: Option<nat>,
    i: nat,
    ds: Seq<DiagnosticView>,
) -> Seq<DiagnosticView> {
    match start {
        Some(first) => if i >= first + 3 && touches_added(added, first, i) {
            ds.push(block_diagnostic(rule, path, first, i))
        } else {
            ds
        },
        None => ds,
    }
}

/// The code-like comment blocks of the lines `ls` from index `i`, where the
/// current block started at `start`, after the diagnostics `ds`.
pub open spec fn comment_blocks(
    rule: Seq<char>,
    path: Seq<char>,
    added: Seq<usize>,
    ls: Seq<Seq<char>>,
    i: nat,
    start: Option<nat>,
    ds: Seq<DiagnosticView>,
) -> Seq<DiagnosticView>
    decreases ls.len() + 1 - i,
{
    if i > ls.len() {
        ds
    } else if i < ls.len() && spec_regex_match(dead_code_pattern(), ls[i as int]) == Some(true) {
        comment_blocks(rule, path, added, ls, i + 1, if start is None { Some(i) } else { start }, ds)
    } else {
        comment_blocks(rule, path, added, ls, i + 1, None, close_block(rule, path, added, start, i, ds))
    }
}

/// The diagnostics of one selected file under `implementation`.
pub open spec fn file_diagnostics(shebang: bool, rule: Seq<char>, f: ShellFile, source: Seq<char>) -> Seq<DiagnosticView> {
    if shebang {
        shebang_diagnostics(rule, f.0, f.1, source)
    } else {
        comment_blocks(rule, f.0, f.1.added_lines@, lines(source), 0, None, seq![])
    }
}

/// The selected files `sel` checked after the diagnostics `ds`.
pub open spec fn shell_scan(shebang: bool, rule: Seq<char>, sel: Seq<ShellFile>, ds: Seq<DiagnosticView>) -> Result<
    Seq<DiagnosticView>,
    RuleError,
>
    decreases sel.len(),
{
    if sel.len() == 0 {
        Ok(ds)
    } else if !vstd::utf8::valid_utf8(sel[0].2) {
        Err(RuleError::NotUtf8)
    } else {
        let next = ds + file_diagnostics(shebang, rule, sel[0], vstd::utf8::decode_utf8(sel[0].2));
        if next.len() > MAX_DIAGNOSTICS {
            Err(RuleError::TooManyDiagnostics)
        } else {
            shell_scan(shebang, rule, sel.drop_first(), next)
        }
    }
}

/// What the shell convention `implementation` (`shell-shebang` or
/// `shell-commented-code`) of rule `rule` gives: the number of shell files it
/// selected and their diagnostics.
pub open spec fn shell_outcome(
    implementation: Seq<char>,
    rule: Seq<char>,
    parameters: Json,
    changes: Seq<Change>,
    files: Seq<(String, File)>,
) -> Result<(nat, Seq<DiagnosticView>), RuleError> {
    match paths_parameter(parameters) {
        Err(e) => Err(e),
        Ok(globs) => if !spec_globs_valid(globs) {
            Err(RuleError::InvalidGlob)
        } else {
            match shell_selection(changes, files, globs, seq![]) {
                Err(e) => Err(e),
                Ok(sel) => if spec_regex_match(dead_code_pattern(), seq![]) is None {
                    Err(RuleError::InvalidPattern)
                } else {
                    match shell_scan(implementation == "shell-shebang"@, rule, sel, seq![]) {
                        Err(e) => Err(e),
                        Ok(ds) => Ok((sel.len(), ds)),
                    }
                },
            }
        },
    }
}

} // verus!

verus! {

/// The paths, changes and contents of selected files.
pub open spec fn selection_view(v: Seq<(&String, &Change, &File)>) -> Seq<ShellFile> {
    v.map_values(|p: (&String, &Change, &File)| (p.0@, *p.1, p.2.bytes@))
}

/// The changed shell files of the configured paths.
fn shell_selection_exec<'a>(
    changes: &'a Vec<Change>,
    files: &'a Vec<(String, File)>,
    globs: &Vec<String>,
) -> (res: Result<Vec<(&'a String, &'a Change, &'a File)>, RuleError>)
    requires
        spec_globs_valid(string_views(globs@)),
    ensures
        match shell_selection(changes@, files@, string_views(globs@), seq![]) {
            Ok(sel) => res matches Ok(v) && selection_view(v@) == sel,
            Err(e) => res is Err && res->Err_0 == e,
        },
{
    let ghost gs = string_views(globs@);
    let mut out: Vec<(&'a String, &'a Change, &'a File)> = Vec::new();
    let mut i: usize = 0;
    assert(changes@.skip(0) =~= changes@);
    assert(selection_view(out@) =~= seq![]);
    while i < changes.len()
        invariant
            0 <= i <= changes@.len(),
            gs == string_views(globs@),
            spec_globs_valid(gs),
            shell_selection(changes@, files@, gs, seq![]) == shell_selection(
                changes@.skip(i as int),
                files@,
                gs,
                selection_view(out@),
            ),
        decreases changes@.len() - i,
    {
        assert(changes@.skip(i as int)[0] == changes@[i as int]);
        assert(changes@.skip(i as int).drop_first() =~= changes@.skip(i + 1));
        let c = &changes[i];
        let deleted = crate::text::text_is(&crate::text::chars_of(c.kind.as_str()), "deleted");
        if !deleted && c.included && (globs.len() == 0 || crate::file_patterns::globs_match(globs, c.path.as_str())) {
            match crate::rules::file_at_exec(files, c.path.as_str()) {
                None => return Err(RuleError::FileAbsent),
                Some(f) => {
                    let shell = match crate::syntax::language(c.path.as_str()) {
                        Some(l) => crate::text::text_is(&crate::text::chars_of(l), "shell"),
                        None => false,
                    };
                    if shell {
                        let ghost before = selection_view(out@);
                        out.push((&c.path, c, f));
                        assert(selection_view(out@) =~= before.push((c.path@, *c, f.bytes@)));
                    }
                },
            }
        }
        i = i + 1;
    }
    assert(changes@.skip(i as int) =~= seq![]);
    Ok(out)
}

/// The shebang diagnostics of one script.
fn shebang_exec(rule: &str, path: &String, c: &Change, source: &Vec<char>) -> (res: Vec<Diagnostic>)
    ensures
        diagnostics_view(res@) == shebang_diagnostics(rule@, path@, *c, source@),
{
    let added_script = crate::text::text_is(&crate::text::chars_of(c.kind.as_str()), "added");
    let mut ds: Vec<Diagnostic> = Vec::new();
    if !crate::text::starts_with_text(source, "#!") && (added_script || crate::source_patterns::is_added(&c.added_lines, 1)) {
        let mut identity = crate::text::chars_of(path.as_str());
        crate::text::extend_chars(&mut identity, &crate::text::chars_of(":shebang"));
        let evidence = vec![
            (crate::rules::text_of("assertion"), Evidence::Text(crate::rules::text_of("require_shell_shebang"))),
        ];
        assert(evidence@.map_values(|q: (String, Evidence)| (q.0@, crate::rules::evidence_view(q.1))) =~= seq![
            ("assertion"@, EvidenceView::Text("require_shell_shebang"@)),
        ]);
        let d = crate::rules::diagnostic(
            rule,
            Some(path.as_str()),
            Some(Range { start_line: 1, end_line: 1 }),
            crate::rules::text_of("Added Shell script has no first-line interpreter directive"),
            evidence,
            "Add an appropriate #! interpreter directive on the first line",
            crate::text::string_of(&identity).as_str(),
        );
        ds.push(d);
        assert(diagnostics_view(ds@) =~= seq![shebang_diagnostic(rule@, path@)]);
    } else {
        assert(diagnostics_view(ds@) =~= seq![]);
    }
    ds
}

/// Whether some line after `first` and up to `last` was added.
fn touches_added_exec(added: &Vec<usize>, first: usize, last: usize) -> (res: bool)
    ensures
        res == touches_added(added@, first as nat, last as nat),
{
    let mut k: usize = 0;
    while k < added.len()
        invariant
            0 <= k <= added@.len(),
            forall|q: int| 0 <= q < k ==> !(first < #[trigger] added@[q] && added@[q] <= last),
        decreases added@.len() - k,
    {
        if first < added[k] && added[k] <= last {
            return true;
        }
        k = k + 1;
    }
    false
}

/// The diagnostic of the block on lines `first + 1` to `last`.
fn block_diagnostic_exec(rule: &str, path: &String, first: usize, last: usize) -> (res: Diagnostic)
    requires
        first < last,
    ensures
        crate::rules::diagnostic_view(res) == block_diagnostic(rule@, path@, first as nat, last as nat),
{
    let mut identity = crate::text::chars_of(path.as_str());
    identity.push(':');
    let number = crate::text::decimal_string((first + 1) as u64);
    crate::text::extend_chars(&mut identity, &crate::text::chars_of(number.as_str()));
    crate::text::extend_chars(&mut identity, &crate::text::chars_of(":commented-code"));
    proof {
        reveal_strlit(":");
        assert(identity@ =~= path@ + ":"@ + crate::text::decimal_text((first + 1) as nat) + ":commented-code"@);
    }
    let span: u64 = (last - first) as u64;
    let evidence = vec![
        (crate::rules::text_of("assertion"), Evidence::Text(crate::rules::text_of("forbid_commented_code_block"))),
        (crate::rules::text_of("lines"), Evidence::Count(span)),
    ];
    assert(evidence@.map_values(|q: (String, Evidence)| (q.0@, crate::rules::evidence_view(q.1))) =~= seq![
        ("assertion"@, EvidenceView::Text("forbid_commented_code_block"@)),
        ("lines"@, EvidenceView::Count(span)),
    ]);
    crate::rules::diagnostic(
        rule,
        Some(path.as_str()),
        Some(Range { start_line: first + 1, end_line: last }),
        crate::rules::text_of("Shell file contains three or more consecutive code-like comments"),
        evidence,
        "Remove dead code or rewrite the block as explanatory prose",
        crate::text::string_of(&identity).as_str(),
    )
}

/// Close the block that started at `start` before line index `i`.
fn close_block_exec(
    rule: &str,
    path: &String,
    added: &Vec<usize>,
    start: Option<usize>,
    i: usize,
    ds: &mut Vec<Diagnostic>,
)
    requires
        start matches Some(s) ==> s < i,
    ensures
        diagnostics_view(final(ds)@) == close_block(
            rule@,
            path@,
            added@,
            match start { Some(s) => Some(s as nat), None => None },
            i as nat,
            diagnostics_view(old(ds)@),
        ),
{
    if let Some(first) = start {
        if i - first >= 3 && touches_added_exec(added, first, i) {
            let d = block_diagnostic_exec(rule, path, first, i);
            let ghost before = diagnostics_view(ds@);
            ds.push(d);
            assert(diagnostics_view(ds@) =~= before.push(crate::rules::diagnostic_view(d)));
        }
    }
}

/// The code-like comment blocks of one file.
fn blocks_exec(rule: &str, path: &String, added: &Vec<usize>, ls: &Vec<Vec<char>>) -> (res: Vec<Diagnostic>)
    ensures
        diagnostics_view(res@) == comment_blocks(rule@, path@, added@, crate::text::views(ls@), 0, None, seq![]),
{
    let ghost all = crate::text::views(ls@);
    let hits = crate::rules::regex_match_all(
        r"^\s*#\s*(?:(?:if|for|while|case|function|return|exit|local|export|readonly)\b|[A-Za-z_][A-Za-z0-9_]*\s*=)",
        ls,
    );
    let mut ds: Vec<Diagnostic> = Vec::new();
    let mut start: Option<usize> = None;
    let mut i: usize = 0;
    assert(diagnostics_view(ds@) =~= seq![]);
    while i < ls.len()
        invariant
            0 <= i <= ls@.len(),
            all == crate::text::views(ls@),
            match hits {
                Some(v) => v@.len() == ls@.len() && forall|q: int|
                    0 <= q < ls@.len() ==> spec_regex_match(dead_code_pattern(), (#[trigger] ls@[q])@) == Some(v@[q]),
                None => forall|q: int| 0 <= q < ls@.len() ==> spec_regex_match(dead_code_pattern(), (#[trigger] ls@[q])@) is None,
            },
            start matches Some(s) ==> s < i,
            comment_blocks(rule@, path@, added@, all, 0, None, seq![]) == comment_blocks(
                rule@,
                path@,
                added@,
                all,
                i as nat,
                match start { Some(s) => Some(s as nat), None => None },
                diagnostics_view(ds@),
            ),
        decreases ls@.len() - i,
    {
        assert(ls@[i as int]@ == all[i as int]);
        let matches = match &hits {
            Some(v) => v[i],
            None => false,
        };
        assert(matches == (spec_regex_match(dead_code_pattern(), all[i as int]) == Some(true)));
        if matches {
            if start.is_none() {
                start = Some(i);
            }
        } else {
            close_block_exec(rule, path, added, start, i, &mut ds);
            start = None;
        }
        i = i + 1;
    }
    let ghost d0 = diagnostics_view(ds@);
    let ghost st = match start { Some(s) => Some(s as nat), None => None };
    close_block_exec(rule, path, added, start, i, &mut ds);
    assert(comment_blocks(rule@, path@, added@, all, i as nat, st, d0) == comment_blocks(
        rule@,
        path@,
        added@,
        all,
        (i + 1) as nat,
        None,
        diagnostics_view(ds@),
    ));
    assert(comment_blocks(rule@, path@, added@, all, (i + 1) as nat, None, diagnostics_view(ds@)) == diagnostics_view(ds@));
    ds
}

/// Evaluate the shell convention `implementation` (`shell-shebang` checks the
/// interpreter directive, any other name the code-like comment blocks) for rule
/// `rule`: the number of selected shell files and their diagnostics.
#[verifier::loop_isolation(false)]
pub fn shell_conventions(
    implementation: &str,
    rule: &str,
    parameters: &Json,
    changes: &Vec<Change>,
    files: &Vec<(String, File)>,
) -> (res: Result<(usize, Vec<Diagnostic>), RuleError>)
    ensures
        match shell_outcome(implementation@, rule@, *parameters, changes@, files@) {
            Ok((m, ds)) => res matches Ok((n, v)) && n as nat == m && diagnostics_view(v@) == ds,
            Err(e) => res is Err && res->Err_0 == e,
        },
{
    proof {
        reveal_strlit("");
        assert(""@ =~= seq![]);
    }
    let globs = crate::file_patterns::paths_parameter_exec(parameters)?;
    if !crate::file_patterns::globs_valid(&globs) {
        return Err(RuleError::InvalidGlob);
    }
    let sel = shell_selection_exec(changes, files, &globs)?;
    if crate::rules::regex_match(
        r"^\s*#\s*(?:(?:if|for|while|case|function|return|exit|local|export|readonly)\b|[A-Za-z_][A-Za-z0-9_]*\s*=)",
        "",
    ).is_none() {
        return Err(RuleError::InvalidPattern);
    }
    let shebang = crate::text::text_is(&crate::text::chars_of(implementation), "shell-shebang");
    let ghost sv = selection_view(sel@);
    let mut ds: Vec<Diagnostic> = Vec::new();
    let mut i: usize = 0;
    assert(sv.skip(0) =~= sv);
    assert(diagnostics_view(ds@) =~= seq![]);
    while i < sel.len()
        invariant
            0 <= i <= sel@.len(),
            sv == selection_view(sel@),
            ds@.len() <= MAX_DIAGNOSTICS,
            shell_scan(shebang, rule@, sv, seq![]) == shell_scan(shebang, rule@, sv.skip(i as int), diagnostics_view(ds@)),
        decreases sel@.len() - i,
    {
        assert(sv.skip(i as int)[0] == (sel@[i as int].0@, *sel@[i as int].1, sel@[i as int].2.bytes@));
        assert(sv.skip(i as int).drop_first() =~= sv.skip(i + 1));
        let (path, change, file) = sel[i];
        let text = match crate::text::text_of_bytes(file.bytes.as_slice()) {
            None => return Err(RuleError::NotUtf8),
            Some(t) => t,
        };
        proof {
            vstd::utf8::encode_utf8_decode_utf8(text@);
        }
        let chars = crate::text::chars_of(text);
        let found: Vec<Diagnostic> = if shebang {
            shebang_exec(rule, path, change, &chars)
        } else {
            let ls = crate::text::split_lines(&chars);
            blocks_exec(rule, path, &change.added_lines, &ls)
        };
        if found.len() > MAX_DIAGNOSTICS - ds.len() {
            return Err(RuleError::TooManyDiagnostics);
        }
        let mut found = found;
        let ghost before = ds@;
        let ghost added = found@;
        ds.append(&mut found);
        assert(diagnostics_view(ds@) =~= diagnostics_view(before) + diagnostics_view(added));
        i = i + 1;
    }
    assert(sv.skip(i as int) =~= seq![]);
    Ok((sel.len(), ds))
}

} // verus!
