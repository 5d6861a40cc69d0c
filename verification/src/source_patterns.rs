//! The source-pattern rule: configured review patterns checked on the added
//! lines of changed source files. A match is a signal for inspection, not a
//! finding of a defect.

use vstd::prelude::*;
use crate::json::{member, Json};
use crate::provenance::File;
use crate::rules::{diagnostic_spec, diagnostics_view, file_at, Change, Diagnostic, DiagnosticView, Evidence, EvidenceView, RuleError, spec_regex_match};
use crate::file_patterns::{named_language, paths_parameter, spec_globs_match, spec_globs_valid, string_list, string_list_exec};
use crate::syntax::{spec_language, Range};
use crate::text::lines;
use crate::reports::sarif_locations::string_views;

verus! {

/// Most languages, and most patterns per language, a table may hold.
pub const MAX_TABLE_ENTRIES: usize = 32;

/// Longest pattern, in bytes.
pub const MAX_PATTERN_BYTES: usize = 512;

/// Most added lines examined.
pub const MAX_LINES: usize = 1000000;

/// Most diagnostics reported.
pub const MAX_DIAGNOSTICS: usize = 10000;

/// The text that `{:?}` formats for a string: quoted, with escapes.
pub uninterp spec fn spec_debug_text(s: Seq<char>) -> Seq<char>;

/// `format!("{s:?}")` for a string. Named, not restated.
#[verifier::external_body]
fn debug_text(s: &str) -> (res: String)
    ensures
        res@ == spec_debug_text(s@),
{
    format!("{s:?}")
}

/// A language-keyed table of patterns, in the order the parameter gives.
pub type PatternTable = Seq<(Seq<char>, Seq<Seq<char>>)>;

/// Why the patterns `entries` of one language are refused, given those before.
pub open spec fn entries_error(entries: Seq<Seq<char>>, seen: Seq<Seq<char>>) -> Option<RuleError>
    decreases entries.len(),
{
    if entries.len() == 0 {
        None
    } else {
        let p = entries[0];
        if p.len() == 0 || vstd::utf8::encode_utf8(p).len() > MAX_PATTERN_BYTES || seen.contains(p) {
            Some(RuleError::InvalidParameter)
        } else if spec_regex_match(p, seq![]) is None {
            Some(RuleError::InvalidPattern)
        } else {
            entries_error(entries.drop_first(), seen.push(p))
        }
    }
}

/// Why the entry of `language` is refused, if it is.
pub open spec fn language_error(language: Seq<char>, entries: Seq<Seq<char>>) -> Option<RuleError> {
    if !(language == "all"@ || named_language(language)) {
        Some(RuleError::UnsupportedLanguage)
    } else if entries.len() == 0 || entries.len() > MAX_TABLE_ENTRIES {
        Some(RuleError::InvalidParameter)
    } else {
        entries_error(entries, seq![])
    }
}

/// Why a table is refused: the first refused entry.
pub open spec fn table_error(table: PatternTable) -> Option<RuleError>
    decreases table.len(),
{
    if table.len() == 0 {
        None
    } else {
        match language_error(table[0].0, table[0].1) {
            Some(e) => Some(e),
            None => table_error(table.drop_first()),
        }
    }
}

/// The pattern table of parameter `key`: an object of 1 to 32 languages (or
/// `all`), each with 1 to 32 distinct patterns of at most 512 bytes that compile.
pub open spec fn pattern_table(parameters: Json, key: Seq<char>) -> Result<PatternTable, RuleError> {
    match member(parameters, key) {
        None => Err(RuleError::MissingParameter),
        Some(Json::Object(members)) => if exists|i: int| 0 <= i < members@.len() && (#[trigger] string_list(members@[i].1)) is None {
            Err(RuleError::InvalidParameter)
        } else {
            let table = members@.map_values(|m: (String, Json)| (m.0@, string_list(m.1)->0));
            if table.len() == 0 || table.len() > MAX_TABLE_ENTRIES {
                Err(RuleError::InvalidParameter)
            } else {
                match table_error(table) {
                    Some(e) => Err(e),
                    None => Ok(table),
                }
            }
        },
        Some(_) => Err(RuleError::InvalidParameter),
    }
}

/// The patterns of `language` in the table (none when it has no entry).
pub open spec fn patterns_of(table: PatternTable, language: Seq<char>) -> Seq<Seq<char>>
    decreases table.len(),
{
    if table.len() == 0 {
        seq![]
    } else if table[0].0 == language {
        table[0].1
    } else {
        patterns_of(table.drop_first(), language)
    }
}

/// `ps` without the patterns already in `seen` or earlier in `ps`.
pub open spec fn distinct_patterns(ps: Seq<Seq<char>>, seen: Seq<Seq<char>>) -> Seq<Seq<char>>
    decreases ps.len(),
{
    if ps.len() == 0 {
        seen
    } else if seen.contains(ps[0]) {
        distinct_patterns(ps.drop_first(), seen)
    } else {
        distinct_patterns(ps.drop_first(), seen.push(ps[0]))
    }
}

/// The patterns that apply to a file of `language`: those for all languages,
/// then its own, each once.
pub open spec fn active_patterns(table: PatternTable, language: Seq<char>) -> Seq<Seq<char>> {
    distinct_patterns(patterns_of(table, "all"@) + patterns_of(table, language), seq![])
}

/// The diagnostic of pattern `p` on line `n` of `path`.
pub open spec fn pattern_diagnostic(rule: Seq<char>, language: Seq<char>, path: Seq<char>, n: nat, p: Seq<char>) -> DiagnosticView {
    diagnostic_spec(
        rule,
        Some(path),
        Some(Range { start_line: n as usize, end_line: n as usize }),
        "Changed source line matches configured review pattern "@ + spec_debug_text(p),
        seq![("language"@, EvidenceView::Text(language)), ("pattern"@, EvidenceView::Text(p))],
        "Review the changed API or marker against the repository's security and quality policy"@,
        path + ":"@ + crate::text::decimal_text(n) + ":"@ + p,
    )
}

/// The patterns `ps` tried on line `n` of `path`, after the diagnostics `ds`.
pub open spec fn pattern_scan(
    rule: Seq<char>,
    language: Seq<char>,
    path: Seq<char>,
    n: nat,
    line: Seq<char>,
    ps: Seq<Seq<char>>,
    ds: Seq<DiagnosticView>,
) -> Result<Seq<DiagnosticView>, RuleError>
    decreases ps.len(),
{
    if ps.len() == 0 {
        Ok(ds)
    } else if spec_regex_match(ps[0], line) == Some(true) {
        if ds.len() >= MAX_DIAGNOSTICS {
            Err(RuleError::TooManyDiagnostics)
        } else {
            pattern_scan(rule, language, path, n, line, ps.drop_first(), ds.push(pattern_diagnostic(rule, language, path, n, ps[0])))
        }
    } else {
        pattern_scan(rule, language, path, n, line, ps.drop_first(), ds)
    }
}

/// The lines `ls` of `path`, numbered from `n`, of which the `added` ones are
/// examined, after `matched` examined lines and the diagnostics `ds`.
pub open spec fn source_line_scan(
    rule: Seq<char>,
    language: Seq<char>,
    path: Seq<char>,
    ps: Seq<Seq<char>>,
    added: Seq<usize>,
    ls: Seq<Seq<char>>,
    n: nat,
    matched: nat,
    ds: Seq<DiagnosticView>,
) -> Result<(nat, Seq<DiagnosticView>), RuleError>
    decreases ls.len(),
{
    if ls.len() == 0 {
        Ok((matched, ds))
    } else if !added.contains(n as usize) {
        source_line_scan(rule, language, path, ps, added, ls.drop_first(), n + 1, matched, ds)
    } else if matched + 1 > MAX_LINES {
        Err(RuleError::TooManyLines)
    } else {
        match pattern_scan(rule, language, path, n, ls[0], ps, ds) {
            Err(e) => Err(e),
            Ok(d) => source_line_scan(rule, language, path, ps, added, ls.drop_first(), n + 1, matched + 1, d),
        }
    }
}

/// The changes `changes` examined after `matched` lines and the diagnostics `ds`.
pub open spec fn change_scan(
    rule: Seq<char>,
    table: PatternTable,
    globs: Seq<Seq<char>>,
    languages: Seq<Seq<char>>,
    files: Seq<(String, File)>,
    changes: Seq<Change>,
    matched: nat,
    ds: Seq<DiagnosticView>,
) -> Result<(nat, Seq<DiagnosticView>), RuleError>
    decreases changes.len(),
{
    if changes.len() == 0 {
        Ok((matched, ds))
    } else {
        let c = changes[0];
        let rest = changes.drop_first();
        if !c.included || !(globs.len() == 0 || spec_globs_match(globs, c.path@)) {
            change_scan(rule, table, globs, languages, files, rest, matched, ds)
        } else {
            match file_at(files, c.path@) {
                None => if c.kind@ != "deleted"@ {
                    Err(RuleError::FileAbsent)
                } else {
                    change_scan(rule, table, globs, languages, files, rest, matched, ds)
                },
                Some(f) => match spec_language(c.path@) {
                    None => change_scan(rule, table, globs, languages, files, rest, matched, ds),
                    Some(language) => if languages.len() > 0 && !languages.contains(language) {
                        change_scan(rule, table, globs, languages, files, rest, matched, ds)
                    } else if !vstd::utf8::valid_utf8(f.bytes@) {
                        Err(RuleError::NotUtf8)
                    } else if active_patterns(table, language).len() == 0 {
                        change_scan(rule, table, globs, languages, files, rest, matched, ds)
                    } else {
                        match source_line_scan(
                            rule,
                            language,
                            c.path@,
                            active_patterns(table, language),
                            c.added_lines@,
                            lines(vstd::utf8::decode_utf8(f.bytes@)),
                            1,
                            matched,
                            ds,
                        ) {
                            Err(e) => Err(e),
                            Ok((m, d)) => change_scan(rule, table, globs, languages, files, rest, m, d),
                        }
                    },
                },
            }
        }
    }
}

/// What the source-pattern rule `rule` gives: the added lines it examined and
/// the diagnostics of the patterns they match.
pub open spec fn source_patterns_outcome(
    rule: Seq<char>,
    parameters: Json,
    changes: Seq<Change>,
    files: Seq<(String, File)>,
) -> Result<(nat, Seq<DiagnosticView>), RuleError> {
    match pattern_table(parameters, "prohibited_patterns"@) {
        Err(e) => Err(e),
        Ok(table) => match paths_parameter(parameters) {
            Err(e) => Err(e),
            Ok(globs) => if !spec_globs_valid(globs) {
                Err(RuleError::InvalidGlob)
            } else {
                match languages_filter(parameters) {
                    Err(e) => Err(e),
                    Ok(languages) => change_scan(rule, table, globs, languages, files, changes, 0, seq![]),
                }
            },
        },
    }
}

/// The optional `languages` filter: no filter when the parameter is absent.
pub open spec fn languages_filter(parameters: Json) -> Result<Seq<Seq<char>>, RuleError> {
    match member(parameters, "languages"@) {
        None => Ok(seq![]),
        Some(v) => match string_list(v) {
            None => Err(RuleError::InvalidParameter),
            Some(l) => Ok(l),
        },
    }
}

} // verus!

verus! {

/// The language names and pattern texts of an executable table.
pub open spec fn table_view(v: Seq<(String, Vec<String>)>) -> PatternTable {
    v.map_values(|e: (String, Vec<String>)| (e.0@, string_views(e.1@)))
}

/// Whether `l` is `all` or a language the analysis names.
fn table_language(l: &String) -> (res: bool)
    ensures
        res == (l@ == "all"@ || named_language(l@)),
{
    let c = crate::text::chars_of(l.as_str());
    crate::text::text_is(&c, "all") || crate::text::text_is(&c, "java") || crate::text::text_is(&c, "python")
        || crate::text::text_is(&c, "typescript") || crate::text::text_is(&c, "go")
        || crate::text::text_is(&c, "rust") || crate::text::text_is(&c, "shell")
}

/// Why the patterns of one language are refused, if they are.
fn entries_check(entries: &Vec<String>) -> (res: Option<RuleError>)
    ensures
        res == entries_error(string_views(entries@), seq![]),
{
    proof {
        reveal_strlit("");
        assert(""@ =~= seq![]);
    }
    let ghost all = string_views(entries@);
    let mut i: usize = 0;
    assert(all.skip(0) =~= all);
    assert(all.take(0) =~= seq![]);
    while i < entries.len()
        invariant
            0 <= i <= entries@.len(),
            all == string_views(entries@),
            entries_error(all, seq![]) == entries_error(all.skip(i as int), all.take(i as int)),
            ""@ =~= Seq::<char>::empty(),
        decreases entries@.len() - i,
    {
        assert(all.skip(i as int)[0] == entries@[i as int]@);
        assert(all.skip(i as int).drop_first() =~= all.skip(i + 1));
        assert(all.take(i as int).push(all[i as int]) =~= all.take(i + 1));
        let p = &entries[i];
        let pc = crate::text::chars_of(p.as_str());
        let mut seen = false;
        let mut j: usize = 0;
        while j < i
            invariant
                0 <= j <= i < entries@.len(),
                all == string_views(entries@),
                pc@ == p@,
                *p == entries@[i as int],
                seen == (exists|k: int| 0 <= k < j && all[k] == p@),
            decreases i - j,
        {
            if crate::text::chars_equal(&crate::text::chars_of(entries[j].as_str()), &pc) {
                assert(all[j as int] == p@);
                seen = true;
            }
            j = j + 1;
        }
        assert(seen == all.take(i as int).contains(p@)) by {
            if seen {
                let k = choose|k: int| 0 <= k < i && all[k] == p@;
                assert(all.take(i as int)[k] == p@);
            }
            if all.take(i as int).contains(p@) {
                let k = choose|k: int| 0 <= k < i && all.take(i as int)[k] == p@;
                assert(all[k] == p@);
            }
        }
        if pc.len() == 0 || p.as_str().as_bytes().len() > MAX_PATTERN_BYTES || seen {
            return Some(RuleError::InvalidParameter);
        }
        if crate::rules::regex_match(p.as_str(), "").is_none() {
            return Some(RuleError::InvalidPattern);
        }
        i = i + 1;
    }
    assert(all.skip(i as int) =~= seq![]);
    None
}

/// Why the entry of one language is refused, if it is.
fn language_check(language: &String, entries: &Vec<String>) -> (res: Option<RuleError>)
    ensures
        res == language_error(language@, string_views(entries@)),
{
    if !table_language(language) {
        return Some(RuleError::UnsupportedLanguage);
    }
    if entries.len() == 0 || entries.len() > MAX_TABLE_ENTRIES {
        return Some(RuleError::InvalidParameter);
    }
    entries_check(entries)
}

/// The pattern table of parameter `key`.
#[verifier::loop_isolation(false)]
fn pattern_table_exec(parameters: &Json, key: &str) -> (res: Result<Vec<(String, Vec<String>)>, RuleError>)
    ensures
        match pattern_table(*parameters, key@) {
            Ok(t) => res matches Ok(v) && table_view(v@) == t,
            Err(e) => res is Err && res->Err_0 == e,
        },
{
    let members = match crate::json::get(parameters, key) {
        None => return Err(RuleError::MissingParameter),
        Some(Json::Object(members)) => members,
        Some(_) => return Err(RuleError::InvalidParameter),
    };
    let ghost spec_table = members@.map_values(|m: (String, Json)| (m.0@, string_list(m.1)->0));
    let mut out: Vec<(String, Vec<String>)> = Vec::new();
    let mut i: usize = 0;
    while i < members.len()
        invariant
            0 <= i <= members@.len(),
            member(*parameters, key@) == Some(Json::Object(*members)),
            spec_table == members@.map_values(|m: (String, Json)| (m.0@, string_list(m.1)->0)),
            forall|q: int| 0 <= q < i ==> (#[trigger] string_list(members@[q].1)) is Some,
            table_view(out@) == spec_table.take(i as int),
        decreases members@.len() - i,
    {
        match string_list_exec(&members[i].1) {
            None => {
                assert(string_list(members@[i as int].1) is None);
                return Err(RuleError::InvalidParameter);
            },
            Some(l) => {
                let ghost before = table_view(out@);
                out.push((members[i].0.clone(), l));
                assert(table_view(out@) =~= before.push((members@[i as int].0@, string_views(l@))));
                assert(spec_table.take(i + 1) =~= spec_table.take(i as int).push(spec_table[i as int]));
            },
        }
        i = i + 1;
    }
    assert(spec_table.take(i as int) =~= spec_table);
    if out.len() == 0 || out.len() > MAX_TABLE_ENTRIES {
        return Err(RuleError::InvalidParameter);
    }
    let ghost t = table_view(out@);
    let mut k: usize = 0;
    assert(t.skip(0) =~= t);
    while k < out.len()
        invariant
            0 <= k <= out@.len(),
            t == table_view(out@),
            table_error(t) == table_error(t.skip(k as int)),
        decreases out@.len() - k,
    {
        assert(t.skip(k as int)[0] == (out@[k as int].0@, string_views(out@[k as int].1@)));
        assert(t.skip(k as int).drop_first() =~= t.skip(k + 1));
        if let Some(e) = language_check(&out[k].0, &out[k].1) {
            assert(table_error(t.skip(k as int)) == Some(e));
            return Err(e);
        }
        k = k + 1;
    }
    assert(t.skip(k as int) =~= seq![]);
    Ok(out)
}

/// The patterns of `language` in the table.
fn patterns_of_exec<'a>(table: &'a Vec<(String, Vec<String>)>, language: &str) -> (res: Option<&'a Vec<String>>)
    ensures
        match res {
            Some(v) => string_views(v@) == patterns_of(table_view(table@), language@),
            None => patterns_of(table_view(table@), language@) == Seq::<Seq<char>>::empty(),
        },
{
    let ghost t = table_view(table@);
    let l = crate::text::chars_of(language);
    let mut i: usize = 0;
    assert(t.skip(0) =~= t);
    while i < table.len()
        invariant
            0 <= i <= table@.len(),
            t == table_view(table@),
            l@ == language@,
            patterns_of(t, language@) == patterns_of(t.skip(i as int), language@),
        decreases table@.len() - i,
    {
        assert(t.skip(i as int)[0] == (table@[i as int].0@, string_views(table@[i as int].1@)));
        assert(t.skip(i as int).drop_first() =~= t.skip(i + 1));
        if crate::text::chars_equal(&crate::text::chars_of(table[i].0.as_str()), &l) {
            return Some(&table[i].1);
        }
        i = i + 1;
    }
    assert(t.skip(i as int) =~= seq![]);
    None
}

/// Append the patterns of `ps` not yet in `seen` to it, each once.
fn add_distinct(ps: &Vec<String>, seen: &mut Vec<String>)
    ensures
        string_views(final(seen)@) == distinct_patterns(string_views(ps@), string_views(old(seen)@)),
{
    let ghost all = string_views(ps@);
    let ghost start = distinct_patterns(all, string_views(seen@));
    let mut i: usize = 0;
    assert(all.skip(0) =~= all);
    while i < ps.len()
        invariant
            0 <= i <= ps@.len(),
            all == string_views(ps@),
            start == distinct_patterns(all.skip(i as int), string_views(seen@)),
        decreases ps@.len() - i,
    {
        assert(all.skip(i as int)[0] == ps@[i as int]@);
        assert(all.skip(i as int).drop_first() =~= all.skip(i + 1));
        let p = crate::text::chars_of(ps[i].as_str());
        if !crate::compatibility::contains_text(seen, &p) {
            let ghost before = string_views(seen@);
            seen.push(ps[i].clone());
            assert(string_views(seen@) =~= before.push(ps@[i as int]@));
        }
        i = i + 1;
    }
    assert(all.skip(i as int) =~= seq![]);
}

/// The patterns that apply to a file of `language`.
fn active_patterns_exec(table: &Vec<(String, Vec<String>)>, language: &str) -> (res: Vec<String>)
    ensures
        string_views(res@) == active_patterns(table_view(table@), language@),
{
    proof {
        reveal_strlit("all");
    }
    let ghost t = table_view(table@);
    let mut out: Vec<String> = Vec::new();
    assert(string_views(out@) =~= seq![]);
    let ghost ga = patterns_of(t, "all"@);
    let ghost gl = patterns_of(t, language@);
    match patterns_of_exec(table, "all") {
        Some(a) => add_distinct(a, &mut out),
        None => {},
    }
    assert(string_views(out@) == distinct_patterns(ga, seq![]));
    match patterns_of_exec(table, language) {
        Some(b) => add_distinct(b, &mut out),
        None => {},
    }
    proof {
        lemma_distinct_append(ga, gl, seq![]);
    }
    out
}

/// Taking distinct patterns of a concatenation is taking those of each part in turn.
proof fn lemma_distinct_append(a: Seq<Seq<char>>, b: Seq<Seq<char>>, seen: Seq<Seq<char>>)
    ensures
        distinct_patterns(a + b, seen) == distinct_patterns(b, distinct_patterns(a, seen)),
    decreases a.len(),
{
    if a.len() == 0 {
        assert(a + b =~= b);
    } else {
        assert((a + b).drop_first() =~= a.drop_first() + b);
        assert((a + b)[0] == a[0]);
        if seen.contains(a[0]) {
            lemma_distinct_append(a.drop_first(), b, seen);
        } else {
            lemma_distinct_append(a.drop_first(), b, seen.push(a[0]));
        }
    }
}

/// The diagnostic of pattern `p` on line `n` of `path`.
fn pattern_diagnostic_exec(rule: &str, language: &str, path: &String, n: usize, p: &String) -> (res: Diagnostic)
    ensures
        crate::rules::diagnostic_view(res) == pattern_diagnostic(rule@, language@, path@, n as nat, p@),
{
    let mut message = crate::text::chars_of("Changed source line matches configured review pattern ");
    let quoted = debug_text(p.as_str());
    crate::text::extend_chars(&mut message, &crate::text::chars_of(quoted.as_str()));
    let mut identity = crate::text::chars_of(path.as_str());
    identity.push(':');
    let number = crate::text::decimal_string(n as u64);
    crate::text::extend_chars(&mut identity, &crate::text::chars_of(number.as_str()));
    identity.push(':');
    crate::text::extend_chars(&mut identity, &crate::text::chars_of(p.as_str()));
    proof {
        reveal_strlit(":");
        assert(identity@ =~= path@ + ":"@ + crate::text::decimal_text(n as nat) + ":"@ + p@);
    }
    let identity_text = crate::text::string_of(&identity);
    let evidence = vec![
        (crate::rules::text_of("language"), Evidence::Text(crate::rules::text_of(language))),
        (crate::rules::text_of("pattern"), Evidence::Text(p.clone())),
    ];
    assert(evidence@.map_values(|q: (String, Evidence)| (q.0@, crate::rules::evidence_view(q.1))) =~= seq![
        ("language"@, EvidenceView::Text(language@)),
        ("pattern"@, EvidenceView::Text(p@)),
    ]);
    crate::rules::diagnostic(
        rule,
        Some(path.as_str()),
        Some(Range { start_line: n, end_line: n }),
        crate::text::string_of(&message),
        evidence,
        "Review the changed API or marker against the repository's security and quality policy",
        identity_text.as_str(),
    )
}

/// Whether line `n` is among the added lines.
pub(crate) fn is_added(added: &Vec<usize>, n: usize) -> (res: bool)
    ensures
        res == added@.contains(n),
{
    let mut i: usize = 0;
    while i < added.len()
        invariant
            0 <= i <= added@.len(),
            forall|q: int| 0 <= q < i ==> added@[q] != n,
        decreases added@.len() - i,
    {
        if added[i] == n {
            assert(added@[i as int] == n);
            return true;
        }
        i = i + 1;
    }
    false
}

/// `res` answers, for each of `texts`, whether `pattern` matches it.
pub open spec fn answers(pattern: Seq<char>, texts: Seq<Vec<char>>, res: Option<Vec<bool>>) -> bool {
    match res {
        Some(v) => v@.len() == texts.len() && forall|i: int|
            0 <= i < texts.len() ==> spec_regex_match(pattern, (#[trigger] texts[i])@) == Some(v@[i]),
        None => forall|i: int| 0 <= i < texts.len() ==> spec_regex_match(pattern, (#[trigger] texts[i])@) is None,
    }
}

/// Scan the added lines of one file, numbered from 1, with the patterns `ps`.
#[verifier::loop_isolation(false)]
fn scan_source_lines(
    rule: &str,
    language: &str,
    path: &String,
    ps: &Vec<String>,
    added: &Vec<usize>,
    ls: &Vec<Vec<char>>,
    matched: &mut usize,
    ds: &mut Vec<Diagnostic>,
) -> (res: Result<(), RuleError>)
    requires
        *old(matched) <= MAX_LINES,
    ensures
        match source_line_scan(
            rule@,
            language@,
            path@,
            string_views(ps@),
            added@,
            crate::text::views(ls@),
            1,
            *old(matched) as nat,
            diagnostics_view(old(ds)@),
        ) {
            Ok((m, d)) => res is Ok && *final(matched) as nat == m && diagnostics_view(final(ds)@) == d
                && m <= MAX_LINES,
            Err(e) => res is Err && res->Err_0 == e,
        },
{
    let ghost all = crate::text::views(ls@);
    let ghost pv = string_views(ps@);
    let ghost start = source_line_scan(rule@, language@, path@, pv, added@, all, 1, *matched as nat, diagnostics_view(ds@));
    let mut hits: Vec<Option<Vec<bool>>> = Vec::new();
    let mut h: usize = 0;
    while h < ps.len()
        invariant
            0 <= h <= ps@.len(),
            hits@.len() == h,
            forall|q: int| 0 <= q < h ==> answers(ps@[q]@, ls@, #[trigger] hits@[q]),
        decreases ps@.len() - h,
    {
        let a = crate::rules::regex_match_all(ps[h].as_str(), ls);
        assert(answers(ps@[h as int]@, ls@, a));
        hits.push(a);
        h = h + 1;
    }
    let mut j: usize = 0;
    assert(all.skip(0) =~= all);
    while j < ls.len()
        invariant
            0 <= j <= ls@.len(),
            all == crate::text::views(ls@),
            pv == string_views(ps@),
            *matched <= MAX_LINES,
            start == source_line_scan(rule@, language@, path@, pv, added@, all, 1, *old(matched) as nat, diagnostics_view(old(ds)@)),
            start == source_line_scan(
                rule@,
                language@,
                path@,
                pv,
                added@,
                all.skip(j as int),
                (j + 1) as nat,
                *matched as nat,
                diagnostics_view(ds@),
            ),
        decreases ls@.len() - j,
    {
        assert(all.skip(j as int)[0] == ls@[j as int]@);
        assert(all.skip(j as int).drop_first() =~= all.skip(j + 1));
        let n = j + 1;
        if is_added(added, n) {
            if *matched + 1 > MAX_LINES {
                return Err(RuleError::TooManyLines);
            }
            *matched = *matched + 1;
            let ghost line_view = all[j as int];
            let ghost rest = pattern_scan(rule@, language@, path@, n as nat, line_view, pv, diagnostics_view(ds@));
            assert(start == match rest {
                Err(e) => Err(e),
                Ok(d) => source_line_scan(rule@, language@, path@, pv, added@, all.skip(j + 1), (n + 1) as nat, *matched as nat, d),
            });
            let mut k: usize = 0;
            assert(pv.skip(0) =~= pv);
            while k < ps.len()
                invariant
                    0 <= k <= ps@.len(),
                    pv == string_views(ps@),
                    rest == pattern_scan(rule@, language@, path@, n as nat, line_view, pv.skip(k as int), diagnostics_view(ds@)),
                decreases ps@.len() - k,
            {
                assert(pv.skip(k as int)[0] == ps@[k as int]@);
                assert(pv.skip(k as int).drop_first() =~= pv.skip(k + 1));
                assert(answers(ps@[k as int]@, ls@, hits@[k as int]));
                let hit = match &hits[k] {
                    Some(v) => v[j],
                    None => false,
                };
                assert(ls@[j as int]@ == line_view);
                assert(hit == (spec_regex_match(pv[k as int], line_view) == Some(true)));
                if hit {
                    if ds.len() >= MAX_DIAGNOSTICS {
                        return Err(RuleError::TooManyDiagnostics);
                    }
                    let d = pattern_diagnostic_exec(rule, language, path, n, &ps[k]);
                    let ghost before = diagnostics_view(ds@);
                    ds.push(d);
                    assert(diagnostics_view(ds@) =~= before.push(crate::rules::diagnostic_view(d)));
                }
                k = k + 1;
            }
            assert(pv.skip(k as int) =~= seq![]);
        }
        j = j + 1;
    }
    assert(all.skip(j as int) =~= seq![]);
    Ok(())
}

/// The optional `languages` filter.
fn languages_filter_exec(parameters: &Json) -> (res: Result<Vec<String>, RuleError>)
    ensures
        match languages_filter(*parameters) {
            Ok(l) => res matches Ok(v) && string_views(v@) == l,
            Err(e) => res is Err && res->Err_0 == e,
        },
{
    match crate::json::get(parameters, "languages") {
        None => {
            let v: Vec<String> = Vec::new();
            assert(string_views(v@) =~= seq![]);
            Ok(v)
        },
        Some(p) => match string_list_exec(p) {
            None => Err(RuleError::InvalidParameter),
            Some(l) => Ok(l),
        },
    }
}

/// Evaluate the source-pattern rule `rule`: check the configured patterns on
/// the added lines of the included changed source files. Gives the number of
/// added lines examined and a diagnostic for each pattern that a line matches.
#[verifier::loop_isolation(false)]
pub fn source_patterns(
    rule: &str,
    parameters: &Json,
    changes: &Vec<Change>,
    files: &Vec<(String, File)>,
) -> (res: Result<(usize, Vec<Diagnostic>), RuleError>)
    ensures
        match source_patterns_outcome(rule@, *parameters, changes@, files@) {
            Ok((m, ds)) => res matches Ok((n, v)) && n as nat == m && diagnostics_view(v@) == ds,
            Err(e) => res is Err && res->Err_0 == e,
        },
{
    let table = pattern_table_exec(parameters, "prohibited_patterns")?;
    let globs = crate::file_patterns::paths_parameter_exec(parameters)?;
    if !crate::file_patterns::globs_valid(&globs) {
        return Err(RuleError::InvalidGlob);
    }
    let languages = languages_filter_exec(parameters)?;
    let ghost t = table_view(table@);
    let ghost gs = string_views(globs@);
    let ghost ls = string_views(languages@);
    let mut matched: usize = 0;
    let mut ds: Vec<Diagnostic> = Vec::new();
    let mut i: usize = 0;
    assert(changes@.skip(0) =~= changes@);
    assert(diagnostics_view(ds@) =~= seq![]);
    while i < changes.len()
        invariant
            0 <= i <= changes@.len(),
            matched <= MAX_LINES,
            change_scan(rule@, t, gs, ls, files@, changes@, 0, seq![]) == change_scan(
                rule@,
                t,
                gs,
                ls,
                files@,
                changes@.skip(i as int),
                matched as nat,
                diagnostics_view(ds@),
            ),
        decreases changes@.len() - i,
    {
        assert(changes@.skip(i as int)[0] == changes@[i as int]);
        assert(changes@.skip(i as int).drop_first() =~= changes@.skip(i + 1));
        let c = &changes[i];
        if c.included && (globs.len() == 0 || crate::file_patterns::globs_match(&globs, c.path.as_str())) {
            match crate::rules::file_at_exec(files, c.path.as_str()) {
                None => {
                    if !crate::text::text_is(&crate::text::chars_of(c.kind.as_str()), "deleted") {
                        return Err(RuleError::FileAbsent);
                    }
                },
                Some(f) => match crate::syntax::language(c.path.as_str()) {
                    None => {},
                    Some(language) => {
                        let wanted = languages.len() == 0 || crate::compatibility::contains_text(
                            &languages,
                            &crate::text::chars_of(language),
                        );
                        if wanted {
                            let text = match crate::text::text_of_bytes(f.bytes.as_slice()) {
                                None => return Err(RuleError::NotUtf8),
                                Some(x) => x,
                            };
                            proof {
                                vstd::utf8::encode_utf8_decode_utf8(text@);
                            }
                            let active = active_patterns_exec(&table, language);
                            if active.len() > 0 {
                                let chars = crate::text::chars_of(text);
                                let lines_of = crate::text::split_lines(&chars);
                                scan_source_lines(
                                    rule,
                                    language,
                                    &c.path,
                                    &active,
                                    &c.added_lines,
                                    &lines_of,
                                    &mut matched,
                                    &mut ds,
                                )?;
                            }
                        }
                    },
                },
            }
        }
        i = i + 1;
    }
    assert(changes@.skip(i as int) =~= seq![]);
    Ok((matched, ds))
}

} // verus!

verus! {

/// Diagnostic `d` concerns one line of a file, and that line was added by one
/// of `changes`.
pub open spec fn on_added_line(d: DiagnosticView, changes: Seq<Change>) -> bool {
    match (d.file, d.range) {
        (Some(f), Some(r)) => exists|i: int|
            0 <= i < changes.len() && (#[trigger] changes[i]).path@ == f && changes[i].added_lines@.contains(r.start_line),
        _ => false,
    }
}

/// Every diagnostic of `ds` is on an added line of `changes`.
pub open spec fn all_on_added_lines(ds: Seq<DiagnosticView>, changes: Seq<Change>) -> bool {
    forall|j: int| 0 <= j < ds.len() ==> on_added_line(#[trigger] ds[j], changes)
}

proof fn lemma_pattern_scan_grounded(
    rule: Seq<char>,
    language: Seq<char>,
    c: Change,
    n: nat,
    line: Seq<char>,
    ps: Seq<Seq<char>>,
    ds: Seq<DiagnosticView>,
    changes: Seq<Change>,
)
    requires
        changes.contains(c),
        c.added_lines@.contains(n as usize),
        all_on_added_lines(ds, changes),
    ensures
        pattern_scan(rule, language, c.path@, n, line, ps, ds) matches Ok(d) ==> all_on_added_lines(d, changes),
    decreases ps.len(),
{
    if ps.len() > 0 && spec_regex_match(ps[0], line) == Some(true) && ds.len() < MAX_DIAGNOSTICS {
        let d = pattern_diagnostic(rule, language, c.path@, n, ps[0]);
        let i = choose|i: int| 0 <= i < changes.len() && changes[i] == c;
        assert(on_added_line(d, changes)) by {
            assert(changes[i].path@ == c.path@);
        }
        assert(all_on_added_lines(ds.push(d), changes)) by {
            assert forall|j: int| 0 <= j < ds.push(d).len() implies on_added_line(#[trigger] ds.push(d)[j], changes) by {
                if j < ds.len() {
                    assert(ds.push(d)[j] == ds[j]);
                }
            }
        }
        lemma_pattern_scan_grounded(rule, language, c, n, line, ps.drop_first(), ds.push(d), changes);
    } else if ps.len() > 0 {
        lemma_pattern_scan_grounded(rule, language, c, n, line, ps.drop_first(), ds, changes);
    }
}

proof fn lemma_line_scan_grounded(
    rule: Seq<char>,
    language: Seq<char>,
    c: Change,
    ps: Seq<Seq<char>>,
    ls: Seq<Seq<char>>,
    n: nat,
    matched: nat,
    ds: Seq<DiagnosticView>,
    changes: Seq<Change>,
)
    requires
        changes.contains(c),
        all_on_added_lines(ds, changes),
    ensures
        source_line_scan(rule, language, c.path@, ps, c.added_lines@, ls, n, matched, ds) matches Ok((_, d))
            ==> all_on_added_lines(d, changes),
    decreases ls.len(),
{
    if ls.len() > 0 {
        if !c.added_lines@.contains(n as usize) {
            lemma_line_scan_grounded(rule, language, c, ps, ls.drop_first(), n + 1, matched, ds, changes);
        } else if matched + 1 <= MAX_LINES {
            lemma_pattern_scan_grounded(rule, language, c, n, ls[0], ps, ds, changes);
            match pattern_scan(rule, language, c.path@, n, ls[0], ps, ds) {
                Err(_) => {},
                Ok(d) => lemma_line_scan_grounded(rule, language, c, ps, ls.drop_first(), n + 1, matched + 1, d, changes),
            }
        }
    }
}

proof fn lemma_change_scan_grounded(
    rule: Seq<char>,
    table: PatternTable,
    globs: Seq<Seq<char>>,
    languages: Seq<Seq<char>>,
    files: Seq<(String, File)>,
    all: Seq<Change>,
    i: int,
    matched: nat,
    ds: Seq<DiagnosticView>,
)
    requires
        0 <= i <= all.len(),
        all_on_added_lines(ds, all),
    ensures
        change_scan(rule, table, globs, languages, files, all.skip(i), matched, ds) matches Ok((_, d))
            ==> all_on_added_lines(d, all),
    decreases all.len() - i,
{
    if i < all.len() {
        let rest = all.skip(i);
        assert(rest[0] == all[i]);
        assert(rest.drop_first() =~= all.skip(i + 1));
        let c = all[i];
        assert(all.contains(c));
        match spec_language(c.path@) {
            Some(language) => {
                lemma_line_scan_grounded(
                    rule,
                    language,
                    c,
                    active_patterns(table, language),
                    lines(vstd::utf8::decode_utf8(file_at(files, c.path@)->0.bytes@)),
                    1,
                    matched,
                    ds,
                    all,
                );
                match source_line_scan(
                    rule,
                    language,
                    c.path@,
                    active_patterns(table, language),
                    c.added_lines@,
                    lines(vstd::utf8::decode_utf8(file_at(files, c.path@)->0.bytes@)),
                    1,
                    matched,
                    ds,
                ) {
                    Ok((m, d)) => lemma_change_scan_grounded(rule, table, globs, languages, files, all, i + 1, m, d),
                    Err(_) => {},
                }
            },
            None => {},
        }
        lemma_change_scan_grounded(rule, table, globs, languages, files, all, i + 1, matched, ds);
    }
}

/// The source-pattern rule reports only added lines: each of its diagnostics
/// names a changed file and a line that the change added.
pub proof fn source_patterns_report_added_lines(
    rule: Seq<char>,
    parameters: Json,
    changes: Seq<Change>,
    files: Seq<(String, File)>,
)
    ensures
        source_patterns_outcome(rule, parameters, changes, files) matches Ok((_, ds)) ==> all_on_added_lines(ds, changes),
{
    match pattern_table(parameters, "prohibited_patterns"@) {
        Ok(table) => match paths_parameter(parameters) {
            Ok(globs) => match languages_filter(parameters) {
                Ok(languages) => {
                    assert(changes.skip(0) =~= changes);
                    lemma_change_scan_grounded(rule, table, globs, languages, files, changes, 0, 0, seq![]);
                },
                Err(_) => {},
            },
            Err(_) => {},
        },
        Err(_) => {},
    }
}

} // verus!
