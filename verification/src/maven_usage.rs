//! Maven Dependency Plugin 3.8.1 bytecode-analysis logs, cross-checked with the
//! resolved project facts. An empty, unknown or skipped log is missing evidence,
//! never an empty finding set.

use vstd::prelude::*;
use crate::text::{blank, has_prefix, lines, pieces, spec_is_whitespace, trim};
use crate::reports::lcov::{text_less, text_less_asymmetric, text_less_irreflexive, text_less_total, text_less_transitive};
use crate::xml::{has_tag, XmlNode};
use crate::rules::Snapshot;
use crate::compatibility::{children, descendants, indices};

verus! {

/// Largest accepted analysis log, in bytes (16 MiB).
pub const MAX_LOG_BYTES: usize = 16777216;

/// Why a Maven usage log was refused.
#[derive(Debug, Clone, Copy, PartialEq, Eq, Structural)]
pub enum MavenUsageError {
    /// The log or the model exceeds its budget.
    TooLarge,
    /// The effective model is not UTF-8 XML.
    InvalidModel,
    /// The dependency plugin has its own dependencies.
    CustomAnalyzer,
    /// A dependency plugin setting that may hide usage, or that conflicts with the evidence contract.
    UnsupportedAnalysisConfiguration,
    /// A compiler setting that prevents complete source accounting.
    UnsupportedCompilerConfiguration,
    /// The log is not UTF-8.
    NotUtf8,
    /// The log holds NUL or escape characters.
    NotPlain,
    /// The project coordinate has no artifact.
    InvalidIdentity,
    /// Output inside the analysis that no rule recognizes.
    Unrecognized,
    /// A goal after the analysis.
    NotFinal,
    /// A repeated clean, or a clean after compilation.
    LateClean,
    /// An analysis of another version, module or execution, or without clean.
    UnsupportedAnalysis,
    /// A compilation before clean.
    CompileBeforeClean,
    /// The compiled source counts overflow.
    CountOverflow,
    /// A dependency section without entries.
    EmptySection,
    /// "No dependency problems found" beside problems.
    Contradictory,
    /// A repeated, empty or contradictory section.
    DuplicateSection,
    /// A malformed artifact coordinate.
    MalformedArtifact,
    /// An artifact scope other than compile, provided, runtime, test or system.
    UnsupportedScope,
    /// An artifact absent from the resolved project tree.
    Unresolved,
    /// An undeclared dependency that is declared, or listed twice.
    ContradictoryUndeclared,
    /// A declared-dependency finding without a direct declaration.
    Undeclared,
    /// The analysis is absent, skipped, truncated or unsuccessful.
    Incomplete,
    /// The compiled sources differ from the snapshot's Java sources.
    InventoryMismatch,
}

/// A resolved Maven dependency.
#[derive(Debug, Clone)]
pub struct DependencyFact {
    pub group: String,
    pub artifact: String,
    pub artifact_type: String,
    pub classifier: String,
    pub version: String,
    pub scope: String,
}

/// The facts of one project: its schema and ecosystem, module root and
/// manifest, coordinate, source roots, declared and resolved dependencies, the
/// bytecode usage evidence when it was gathered, the check that produced the
/// facts and the digest of the snapshot they describe.
#[derive(Debug, Clone)]
pub struct ProjectFacts {
    pub schema_version: u32,
    pub ecosystem: String,
    pub root: String,
    pub manifest: String,
    pub coordinate: String,
    pub source_root: String,
    pub test_source_root: String,
    pub declared: Vec<DependencyFact>,
    pub resolved: Vec<DependencyFact>,
    pub dependency_usage: Option<DependencyUsage>,
    pub producer_check: String,
    pub snapshot_digest: String,
}

/// What the analysis proves: the analyzer, the compiled source counts, and the
/// used but undeclared dependencies in ascending order.
#[derive(Debug, Clone)]
pub struct DependencyUsage {
    pub analyzer: String,
    pub compiled_main_sources: usize,
    pub compiled_test_sources: usize,
    pub used_undeclared: Vec<DependencyFact>,
}

/// A dependency as plain text: group, artifact, type, classifier, version, scope.
pub type FactView = (Seq<char>, Seq<char>, Seq<char>, Seq<char>, Seq<char>, Seq<char>);

/// The plain values of a dependency.
pub open spec fn fact_view(f: DependencyFact) -> FactView {
    (f.group@, f.artifact@, f.artifact_type@, f.classifier@, f.version@, f.scope@)
}

/// The plain values of a list of dependencies.
pub open spec fn facts_view(v: Seq<DependencyFact>) -> Seq<FactView> {
    v.map_values(|f: DependencyFact| fact_view(f))
}

/// Dependencies ordered field by field.
pub open spec fn fact_less(a: FactView, b: FactView) -> bool {
    if a.0 != b.0 {
        text_less(a.0, b.0)
    } else if a.1 != b.1 {
        text_less(a.1, b.1)
    } else if a.2 != b.2 {
        text_less(a.2, b.2)
    } else if a.3 != b.3 {
        text_less(a.3, b.3)
    } else if a.4 != b.4 {
        text_less(a.4, b.4)
    } else {
        text_less(a.5, b.5)
    }
}

/// `x` added to the ascending list `s`, before the first item not below it.
pub open spec fn insert_fact(s: Seq<FactView>, x: FactView) -> Seq<FactView>
    decreases s.len(),
{
    if s.len() == 0 {
        seq![x]
    } else if fact_less(s[0], x) {
        seq![s[0]] + insert_fact(s.drop_first(), x)
    } else {
        seq![x] + s
    }
}

/// One of the artifact scopes the analysis accepts.
pub open spec fn known_scope(s: Seq<char>) -> bool {
    s == "compile"@ || s == "provided"@ || s == "runtime"@ || s == "test"@ || s == "system"@
}

/// `s` holds `pat` somewhere.
pub open spec fn contains_text(s: Seq<char>, pat: Seq<char>) -> bool {
    exists|i: int| 0 <= i <= s.len() - pat.len() && #[trigger] s.subrange(i, i + pat.len()) == pat
}

/// A coordinate part that is empty, holds a property reference or white space.
pub open spec fn bad_part(p: Seq<char>) -> bool {
    p.len() == 0 || contains_text(p, "${"@) || exists|i: int| 0 <= i < p.len() && spec_is_whitespace(#[trigger] p[i])
}

/// The dependency that an analysis line names: `group:artifact:type[:classifier]:version:scope`.
pub open spec fn coordinate_of(value: Seq<char>) -> Result<FactView, MavenUsageError> {
    let parts = pieces(value, ':');
    let n = parts.len();
    if !(5 <= n <= 6) || exists|i: int| 0 <= i < n && bad_part(#[trigger] parts[i]) {
        Err(MavenUsageError::MalformedArtifact)
    } else if !known_scope(parts[n - 1]) {
        Err(MavenUsageError::UnsupportedScope)
    } else {
        Ok((parts[0], parts[1], parts[2], if n == 6 { parts[3] } else { seq![] }, parts[n - 2], parts[n - 1]))
    }
}

} // verus!

verus! {

/// The text of the first `artifactId` child of `p`.
pub open spec fn artifact_of(nodes: Seq<XmlNode>, p: int) -> Option<Seq<char>> {
    let cs = children(nodes, p, "artifactId"@);
    if cs.len() == 0 {
        None
    } else {
        match nodes[cs[0]].text {
            Some(t) => Some(t@),
            None => None,
        }
    }
}

/// The value a dependency-plugin setting must have, if the setting is allowed.
pub open spec fn analysis_setting(name: Seq<char>) -> Option<Seq<char>> {
    if name == "verbose"@ || name == "scriptableOutput"@ || name == "outputXML"@ || name
        == "failOnWarning"@ || name == "skip"@ {
        Some("false"@)
    } else if name == "analyzer"@ {
        Some("default"@)
    } else {
        None
    }
}

/// A compiler setting that prevents complete source accounting.
pub open spec fn compiler_setting(name: Seq<char>) -> bool {
    name == "skip"@ || name == "skipMain"@ || name == "skipMultiThreadWarning"@ || name
        == "skipTests"@ || name == "includes"@ || name == "testIncludes"@ || name == "excludes"@
        || name == "testExcludes"@ || name == "compileSourceRoots"@ || name == "outputDirectory"@
        || name == "testOutputDirectory"@ || name == "compilerId"@ || name == "compilerArgs"@
        || name == "compilerArguments"@ || name == "executable"@
}

/// Why the parameters `cs` of a configuration are refused, if they are.
pub open spec fn parameters_error(nodes: Seq<XmlNode>, dependency: bool, cs: Seq<int>) -> Option<MavenUsageError>
    decreases cs.len(),
{
    if cs.len() == 0 {
        None
    } else {
        let node = nodes[cs[0]];
        let here = if dependency {
            match analysis_setting(node.name@) {
                None => Some(MavenUsageError::UnsupportedAnalysisConfiguration),
                Some(expected) => if (match node.text {
                    Some(t) => Some(trim(t@)),
                    None => None,
                }) != Some(expected) {
                    Some(MavenUsageError::UnsupportedAnalysisConfiguration)
                } else {
                    None
                },
            }
        } else if compiler_setting(node.name@) {
            Some(MavenUsageError::UnsupportedCompilerConfiguration)
        } else {
            None
        };
        match here {
            Some(e) => Some(e),
            None => parameters_error(nodes, dependency, cs.drop_first()),
        }
    }
}

/// Why the configurations among the elements `ds` of a plugin are refused.
pub open spec fn configurations_error(nodes: Seq<XmlNode>, dependency: bool, ds: Seq<int>) -> Option<MavenUsageError>
    decreases ds.len(),
{
    if ds.len() == 0 {
        None
    } else if has_tag(nodes[ds[0]], "configuration"@) {
        match parameters_error(nodes, dependency, children(nodes, ds[0], seq![])) {
            Some(e) => Some(e),
            None => configurations_error(nodes, dependency, ds.drop_first()),
        }
    } else {
        configurations_error(nodes, dependency, ds.drop_first())
    }
}

/// Why plugin `p` of the model is refused, if it is.
pub open spec fn plugin_error(nodes: Seq<XmlNode>, p: int) -> Option<MavenUsageError> {
    let a = artifact_of(nodes, p);
    if !(a == Some("maven-dependency-plugin"@) || a == Some("maven-compiler-plugin"@)) {
        None
    } else if a == Some("maven-dependency-plugin"@) && children(nodes, p, "dependencies"@).len() > 0 {
        Some(MavenUsageError::CustomAnalyzer)
    } else {
        configurations_error(nodes, a == Some("maven-dependency-plugin"@), descendants(nodes, p))
    }
}

/// Why the plugins among the elements `ds` of the model are refused.
pub open spec fn plugins_error(nodes: Seq<XmlNode>, ds: Seq<int>) -> Option<MavenUsageError>
    decreases ds.len(),
{
    if ds.len() == 0 {
        None
    } else if has_tag(nodes[ds[0]], "plugin"@) {
        match plugin_error(nodes, ds[0]) {
            Some(e) => Some(e),
            None => plugins_error(nodes, ds.drop_first()),
        }
    } else {
        plugins_error(nodes, ds.drop_first())
    }
}

/// Why the effective model `bytes` does not allow complete usage evidence.
pub open spec fn model_error(bytes: Seq<u8>) -> Option<MavenUsageError> {
    if !vstd::utf8::valid_utf8(bytes) {
        Some(MavenUsageError::InvalidModel)
    } else {
        match crate::xml::spec_parse_xml(vstd::utf8::decode_utf8(bytes), u32::MAX) {
            None => Some(MavenUsageError::InvalidModel),
            Some(nodes) => if !crate::xml::well_formed(nodes) {
                Some(MavenUsageError::InvalidModel)
            } else {
                plugins_error(nodes, descendants(nodes, 0))
            },
        }
    }
}

} // verus!

verus! {

/// Where the reading of an analysis log stands after some of its lines.
#[verifier::ext_equal]
pub struct LogProgress {
    /// The compilation whose output follows: 0 for main sources, 1 for tests.
    pub stage: Option<int>,
    pub compiled_main: int,
    pub compiled_test: int,
    pub clean: bool,
    pub analyzing: bool,
    pub analyzed: bool,
    pub success: bool,
    pub clean_result: bool,
    /// The dependency section being read: 0 used undeclared, 1 unused declared,
    /// 2 non-test scoped test-only.
    pub section: Option<int>,
    pub seen_used: bool,
    pub seen_unused: bool,
    pub seen_test_only: bool,
    /// The current section has an entry.
    pub section_filled: bool,
    /// The used undeclared dependencies so far, ascending.
    pub missing: Seq<FactView>,
}

/// Nothing read yet.
pub open spec fn initial_progress() -> LogProgress {
    LogProgress {
        stage: None,
        compiled_main: 0,
        compiled_test: 0,
        clean: false,
        analyzing: false,
        analyzed: false,
        success: false,
        clean_result: false,
        section: None,
        seen_used: false,
        seen_unused: false,
        seen_test_only: false,
        section_filled: false,
        missing: seq![],
    }
}

/// Whether section `k` has been read.
pub open spec fn seen(p: LogProgress, k: int) -> bool {
    if k == 0 {
        p.seen_used
    } else if k == 1 {
        p.seen_unused
    } else {
        p.seen_test_only
    }
}

/// Some section has been read.
pub open spec fn any_seen(p: LogProgress) -> bool {
    p.seen_used || p.seen_unused || p.seen_test_only
}

/// The section a heading line opens.
pub open spec fn section_of(body: Seq<char>) -> Option<int> {
    if body == "Used undeclared dependencies found:"@ {
        Some(0)
    } else if body == "Unused declared dependencies found:"@ {
        Some(1)
    } else if body == "Non-test scoped test only dependencies found:"@ {
        Some(2)
    } else {
        None
    }
}

/// The text of a log line after its `[INFO] ` or `[WARNING] ` level.
pub open spec fn body_of(line: Seq<char>) -> Option<Seq<char>> {
    if has_prefix(line, "[INFO] "@) {
        Some(line.skip("[INFO] "@.len() as int))
    } else if has_prefix(line, "[WARNING] "@) {
        Some(line.skip("[WARNING] "@.len() as int))
    } else {
        None
    }
}

/// The end of the run of decimal digits of `s` that starts at `i`.
pub open spec fn digit_run(s: Seq<char>, i: int) -> int
    decreases s.len() - i,
{
    if 0 <= i < s.len() && crate::text::is_digit(s[i]) {
        digit_run(s, i + 1)
    } else {
        i
    }
}

/// `t` is empty or starts with a space.
pub open spec fn word_ends(t: Seq<char>) -> bool {
    t.len() == 0 || t[0] == ' '
}

/// The count digits of a javac summary: `Compiling N source file` or `files`,
/// then a space or the end, with `N` free of leading zeros.
pub open spec fn compiled_count(body: Seq<char>) -> Option<Seq<char>> {
    let intro = "Compiling "@;
    let noun = " source file"@;
    if !has_prefix(body, intro) {
        None
    } else {
        let e = digit_run(body, intro.len() as int);
        let d = body.subrange(intro.len() as int, e);
        let after = body.skip(e);
        if d.len() == 0 || d[0] == '0' || !has_prefix(after, noun) {
            None
        } else {
            let tail = after.skip(noun.len() as int);
            if word_ends(tail) || (tail.len() > 0 && tail[0] == 's' && word_ends(tail.drop_first())) {
                Some(d)
            } else {
                None
            }
        }
    }
}

/// A `--- plugin:goal (execution) @ module ---` line before the analysis ends.
pub open spec fn goal_step(p: LogProgress, body: Seq<char>, header: Seq<char>) -> Result<LogProgress, MavenUsageError> {
    let cleaning = contains_text(body, ":clean (default-clean)"@);
    if p.analyzed {
        Err(MavenUsageError::NotFinal)
    } else if cleaning && (p.clean || p.compiled_main != 0 || p.compiled_test != 0) {
        Err(MavenUsageError::LateClean)
    } else {
        let stage = if contains_text(body, ":testCompile (default-testCompile)"@) {
            Some(1int)
        } else if contains_text(body, ":compile (default-compile)"@) {
            Some(0int)
        } else {
            None
        };
        let clean = p.clean || cleaning;
        if contains_text(body, ":analyze"@) {
            if body != header || !clean {
                Err(MavenUsageError::UnsupportedAnalysis)
            } else {
                Ok(LogProgress { stage, clean, analyzed: true, analyzing: true, ..p })
            }
        } else {
            Ok(LogProgress { stage, clean, ..p })
        }
    }
}

/// A line before the analysis: a compilation summary counts its sources.
pub open spec fn compile_step(p: LogProgress, body: Seq<char>) -> Result<LogProgress, MavenUsageError> {
    match (p.stage, compiled_count(body)) {
        (Some(s), Some(d)) => if !p.clean {
            Err(MavenUsageError::CompileBeforeClean)
        } else {
            let before = if s == 0 { p.compiled_main } else { p.compiled_test };
            let total = before + crate::text::digits_value(d);
            if total > usize::MAX {
                Err(MavenUsageError::CountOverflow)
            } else if s == 0 {
                Ok(LogProgress { compiled_main: total, ..p })
            } else {
                Ok(LogProgress { compiled_test: total, ..p })
            }
        },
        _ => Ok(p),
    }
}

/// An entry of the dependency section `k`.
pub open spec fn entry_step(
    p: LogProgress,
    k: int,
    body: Seq<char>,
    resolved: Seq<FactView>,
    declared: Seq<FactView>,
) -> Result<LogProgress, MavenUsageError> {
    match coordinate_of(trim(body)) {
        Err(e) => Err(e),
        Ok(d) => if !resolved.contains(d) {
            Err(MavenUsageError::Unresolved)
        } else if k == 0 {
            if declared.contains(d) || p.missing.contains(d) {
                Err(MavenUsageError::ContradictoryUndeclared)
            } else {
                Ok(LogProgress { missing: insert_fact(p.missing, d), section_filled: true, ..p })
            }
        } else if !declared.contains(d) {
            Err(MavenUsageError::Undeclared)
        } else {
            Ok(LogProgress { section_filled: true, ..p })
        },
    }
}

/// A line after the analysis goal.
pub open spec fn analysis_step(
    p0: LogProgress,
    body: Seq<char>,
    resolved: Seq<FactView>,
    declared: Seq<FactView>,
) -> Result<LogProgress, MavenUsageError> {
    let p = LogProgress { success: p0.success || body == "BUILD SUCCESS"@, ..p0 };
    if has_prefix(body, "-----"@) {
        if p.section is Some && !p.section_filled {
            Err(MavenUsageError::EmptySection)
        } else {
            Ok(LogProgress { analyzing: false, ..p })
        }
    } else if !p.analyzing || blank(body) {
        Ok(p)
    } else if body == "No dependency problems found"@ {
        if p.clean_result || any_seen(p) {
            Err(MavenUsageError::Contradictory)
        } else {
            Ok(LogProgress { clean_result: true, ..p })
        }
    } else {
        match section_of(body) {
            Some(k) => if p.clean_result || seen(p, k) || (p.section is Some && !p.section_filled) {
                Err(MavenUsageError::DuplicateSection)
            } else {
                Ok(LogProgress {
                    section: Some(k),
                    seen_used: p.seen_used || k == 0,
                    seen_unused: p.seen_unused || k == 1,
                    seen_test_only: p.seen_test_only || k == 2,
                    section_filled: false,
                    ..p
                })
            },
            None => match p.section {
                Some(k) => entry_step(p, k, body, resolved, declared),
                None => Err(MavenUsageError::Unrecognized),
            },
        }
    }
}

/// One line of the log.
pub open spec fn step(
    p: LogProgress,
    line: Seq<char>,
    header: Seq<char>,
    resolved: Seq<FactView>,
    declared: Seq<FactView>,
) -> Result<LogProgress, MavenUsageError> {
    match body_of(line) {
        None => if p.analyzing && !blank(line) {
            Err(MavenUsageError::Unrecognized)
        } else {
            Ok(p)
        },
        Some(body) => if has_prefix(body, "--- "@) {
            goal_step(p, body, header)
        } else if !p.analyzed {
            compile_step(p, body)
        } else {
            analysis_step(p, body, resolved, declared)
        },
    }
}

/// The lines `ls` read in order from `p`, up to the first refused one.
pub open spec fn run(
    p: LogProgress,
    ls: Seq<Seq<char>>,
    header: Seq<char>,
    resolved: Seq<FactView>,
    declared: Seq<FactView>,
) -> Result<LogProgress, MavenUsageError>
    decreases ls.len(),
{
    if ls.len() == 0 {
        Ok(p)
    } else {
        match step(p, ls[0], header, resolved, declared) {
            Err(e) => Err(e),
            Ok(q) => run(q, ls.drop_first(), header, resolved, declared),
        }
    }
}

/// A Java source under `root`.
pub open spec fn java_under(path: Seq<char>, root: Seq<char>) -> bool {
    &&& crate::compatibility::has_suffix(path, ".java"@)
    &&& has_prefix(path, root)
    &&& path.len() > root.len()
    &&& path[root.len() as int] == '/'
}

/// How many of the first `n` snapshot files are Java sources under `root`.
pub open spec fn java_count_upto(files: Seq<(String, crate::provenance::File)>, root: Seq<char>, n: int) -> nat
    decreases n,
{
    if n <= 0 {
        0
    } else {
        java_count_upto(files, root, n - 1) + if java_under(files[n - 1].0@, root) {
            1nat
        } else {
            0nat
        }
    }
}

/// How many snapshot files are Java sources under `root`.
pub open spec fn java_count(files: Seq<(String, crate::provenance::File)>, root: Seq<char>) -> nat {
    java_count_upto(files, root, files.len() as int)
}

/// What a successful analysis gives: analyzer, compiled main and test sources,
/// and the used undeclared dependencies in ascending order.
pub type UsageView = (Seq<char>, int, int, Seq<FactView>);

/// The plain values of a usage result.
pub open spec fn usage_view(u: DependencyUsage) -> UsageView {
    (u.analyzer@, u.compiled_main_sources as int, u.compiled_test_sources as int, facts_view(u.used_undeclared@))
}

/// The goal line that the analysis of `artifact` must have.
pub open spec fn analysis_header(artifact: Seq<char>) -> Seq<char> {
    "--- dependency:3.8.1:analyze-only (default-cli) @ "@ + artifact + " ---"@
}

/// What the analysis log `text` proves of the project, once read whole.
pub open spec fn log_outcome(
    text: Seq<char>,
    facts: ProjectFacts,
    files: Seq<(String, crate::provenance::File)>,
) -> Result<UsageView, MavenUsageError> {
    let parts = pieces(facts.coordinate@, ':');
    if parts.len() < 2 {
        Err(MavenUsageError::InvalidIdentity)
    } else {
        match run(
            initial_progress(),
            lines(text),
            analysis_header(parts[1]),
            facts_view(facts.resolved@),
            facts_view(facts.declared@),
        ) {
            Err(e) => Err(e),
            Ok(p) => if !p.analyzed || !p.success || p.analyzing || (!p.clean_result && !any_seen(p)) {
                Err(MavenUsageError::Incomplete)
            } else {
                let main = java_count(files, facts.source_root@) as int;
                let test = java_count(files, facts.test_source_root@) as int;
                if (main == 0 && test == 0) || main != p.compiled_main || test != p.compiled_test {
                    Err(MavenUsageError::InventoryMismatch)
                } else {
                    Ok(("maven-dependency-plugin:3.8.1/default"@, main, test, p.missing))
                }
            },
        }
    }
}

/// What the effective model and analysis log prove of the project.
pub open spec fn usage_outcome(
    model: Seq<u8>,
    log: Seq<u8>,
    facts: ProjectFacts,
    files: Seq<(String, crate::provenance::File)>,
) -> Result<UsageView, MavenUsageError> {
    if log.len() > MAX_LOG_BYTES || model.len() > crate::reports::MAX_REPORT_BYTES {
        Err(MavenUsageError::TooLarge)
    } else {
        match model_error(model) {
            Some(e) => Err(e),
            None => if !vstd::utf8::valid_utf8(log) {
                Err(MavenUsageError::NotUtf8)
            } else {
                let text = vstd::utf8::decode_utf8(log);
                if text.contains('\0') || text.contains('\u{1b}') {
                    Err(MavenUsageError::NotPlain)
                } else {
                    log_outcome(text, facts, files)
                }
            },
        }
    }
}

} // verus!

verus! {

/// Whether `s` holds the characters of `pat` somewhere.
pub(crate) fn text_contains(s: &[char], pat: &str) -> (res: bool)
    ensures
        res == contains_text(s@, pat@),
{
    let p = crate::text::chars_of(pat);
    if p.len() > s.len() {
        return false;
    }
    let n = s.len();
    let last = n - p.len();
    let mut i: usize = 0;
    while i <= last
        invariant
            n == s@.len(),
            p@ == pat@,
            last == s@.len() - p@.len(),
            0 <= i <= last + 1,
            forall|j: int| 0 <= j < i ==> #[trigger] s@.subrange(j, j + p@.len()) != p@,
        decreases last + 1 - i,
    {
        let mut k: usize = 0;
        let mut same = true;
        while same && k < p.len()
            invariant
                n == s@.len(),
                p@ == pat@,
                p@.len() <= s@.len(),
                i <= last,
                last == s@.len() - p@.len(),
                0 <= k <= p@.len(),
                forall|m: int| 0 <= m < k ==> s@[i + m] == p@[m],
                !same ==> k < p@.len() && s@[i + k] != p@[k as int],
            decreases p@.len() - k + if same { 1int } else { 0int },
        {
            if s[i + k] == p[k] {
                k = k + 1;
            } else {
                same = false;
            }
        }
        if k == p.len() {
            assert(s@.subrange(i as int, i + p@.len()) =~= p@);
            return true;
        }
        assert(s@.subrange(i as int, i + p@.len())[k as int] != p@[k as int]);
        if i == last {
            return false;
        }
        i = i + 1;
    }
    false
}

/// The text of a log line after its level, if it has one.
fn body_exec(line: &[char]) -> (res: Option<Vec<char>>)
    ensures
        match body_of(line@) {
            Some(b) => res matches Some(r) && r@ == b,
            None => res is None,
        },
{
    if crate::text::starts_with_text(line, "[INFO] ") {
        let n = crate::text::chars_of("[INFO] ").len();
        let b = crate::text::copy_range(line, n, line.len());
        assert(b@ =~= line@.skip("[INFO] "@.len() as int));
        return Some(b);
    }
    if crate::text::starts_with_text(line, "[WARNING] ") {
        let n = crate::text::chars_of("[WARNING] ").len();
        let b = crate::text::copy_range(line, n, line.len());
        assert(b@ =~= line@.skip("[WARNING] "@.len() as int));
        return Some(b);
    }
    None
}

/// Whether `t`, from position `i` on, is empty or starts with a space.
fn word_ends_at(t: &[char], i: usize) -> (res: bool)
    requires
        i <= t@.len(),
    ensures
        res == word_ends(t@.skip(i as int)),
{
    i == t.len() || t[i] == ' '
}

/// The count digits of a javac summary line, if it is one.
fn compiled_count_exec(body: &[char]) -> (res: Option<Vec<char>>)
    ensures
        match compiled_count(body@) {
            Some(d) => res matches Some(r) && r@ == d,
            None => res is None,
        },
{
    if !crate::text::starts_with_text(body, "Compiling ") {
        return None;
    }
    let a = crate::text::chars_of("Compiling ").len();
    let mut e: usize = a;
    while e < body.len() && crate::text::is_digit_exec(body[e])
        invariant
            a <= e <= body@.len(),
            a == "Compiling "@.len(),
            digit_run(body@, a as int) == digit_run(body@, e as int),
        decreases body@.len() - e,
    {
        e = e + 1;
    }
    assert(digit_run(body@, e as int) == e);
    let d = crate::text::copy_range(body, a, e);
    let ghost after = body@.skip(e as int);
    if d.len() == 0 || d[0] == '0' {
        return None;
    }
    let noun = crate::text::chars_of(" source file");
    let rest = crate::text::copy_range(body, e, body.len());
    assert(rest@ =~= after);
    if !crate::text::starts_with_text(&rest, " source file") {
        return None;
    }
    let t = e + noun.len();
    assert(after.skip(noun@.len() as int) =~= body@.skip(t as int));
    if word_ends_at(body, t) {
        return Some(d);
    }
    if t < body.len() && body[t] == 's' && word_ends_at(body, t + 1) {
        assert(body@.skip(t as int).drop_first() =~= body@.skip(t + 1));
        return Some(d);
    }
    proof {
        if body@.skip(t as int).len() > 0 && body@.skip(t as int)[0] == 's' {
            assert(body@.skip(t as int).drop_first() =~= body@.skip(t + 1));
        }
    }
    None
}

} // verus!

verus! {

/// Whether a coordinate part is empty, holds a property reference or white space.
pub(crate) fn bad_part_exec(p: &[char]) -> (res: bool)
    ensures
        res == bad_part(p@),
{
    if p.len() == 0 || text_contains(p, "${") {
        return true;
    }
    let mut i: usize = 0;
    while i < p.len()
        invariant
            0 <= i <= p@.len(),
            forall|j: int| 0 <= j < i ==> !spec_is_whitespace(#[trigger] p@[j]),
        decreases p@.len() - i,
    {
        if crate::text::is_whitespace(p[i]) {
            return true;
        }
        i = i + 1;
    }
    false
}

/// Whether `s` is one of the accepted scopes.
pub(crate) fn known_scope_exec(s: &[char]) -> (res: bool)
    ensures
        res == known_scope(s@),
{
    crate::text::text_is(s, "compile") || crate::text::text_is(s, "provided")
        || crate::text::text_is(s, "runtime") || crate::text::text_is(s, "test")
        || crate::text::text_is(s, "system")
}

/// The dependency that the characters `value` name.
fn coordinate_chars(value: &[char]) -> (res: Result<DependencyFact, MavenUsageError>)
    ensures
        match coordinate_of(value@) {
            Ok(f) => res matches Ok(d) && fact_view(d) == f,
            Err(e) => res is Err && res->Err_0 == e,
        },
{
    let parts = crate::text::split_char(value, ':');
    let ghost ps = pieces(value@, ':');
    let n = parts.len();
    assert(crate::text::views(parts@).len() == n);
    if n < 5 || n > 6 {
        return Err(MavenUsageError::MalformedArtifact);
    }
    let mut i: usize = 0;
    while i < n
        invariant
            n == parts@.len(),
            5 <= n <= 6,
            ps == pieces(value@, ':'),
            crate::text::views(parts@) == ps,
            0 <= i <= n,
            forall|j: int| 0 <= j < i ==> !bad_part(#[trigger] ps[j]),
        decreases n - i,
    {
        assert(ps[i as int] == parts@[i as int]@);
        if bad_part_exec(parts[i].as_slice()) {
            assert(bad_part(ps[i as int]));
            return Err(MavenUsageError::MalformedArtifact);
        }
        i = i + 1;
    }
    assert(ps[n - 1] == parts@[n - 1]@);
    if !known_scope_exec(parts[n - 1].as_slice()) {
        return Err(MavenUsageError::UnsupportedScope);
    }
    assert(ps[0] == parts@[0]@ && ps[1] == parts@[1]@ && ps[2] == parts@[2]@ && ps[3] == parts@[3]@
        && ps[n - 2] == parts@[n - 2]@);
    let classifier = if n == 6 {
        crate::text::string_of(parts[3].as_slice())
    } else {
        String::new()
    };
    Ok(
        DependencyFact {
            group: crate::text::string_of(parts[0].as_slice()),
            artifact: crate::text::string_of(parts[1].as_slice()),
            artifact_type: crate::text::string_of(parts[2].as_slice()),
            classifier,
            version: crate::text::string_of(parts[n - 2].as_slice()),
            scope: crate::text::string_of(parts[n - 1].as_slice()),
        },
    )
}

/// The dependency that an analysis line names:
/// `group:artifact:type[:classifier]:version:scope`.
pub fn coordinate(value: &str) -> (res: Result<DependencyFact, MavenUsageError>)
    ensures
        match coordinate_of(value@) {
            Ok(f) => res matches Ok(d) && fact_view(d) == f,
            Err(e) => res is Err && res->Err_0 == e,
        },
{
    let c = crate::text::chars_of(value);
    coordinate_chars(&c)
}

/// Whether two strings hold the same text.
pub(crate) fn same_text(a: &String, b: &String) -> (res: bool)
    ensures
        res == (a@ == b@),
{
    let x = crate::text::chars_of(a.as_str());
    let y = crate::text::chars_of(b.as_str());
    crate::text::chars_equal(&x, &y)
}

/// Whether two dependencies agree in every field.
pub(crate) fn same_fact(a: &DependencyFact, b: &DependencyFact) -> (res: bool)
    ensures
        res == (fact_view(*a) == fact_view(*b)),
{
    same_text(&a.group, &b.group) && same_text(&a.artifact, &b.artifact) && same_text(
        &a.artifact_type,
        &b.artifact_type,
    ) && same_text(&a.classifier, &b.classifier) && same_text(&a.version, &b.version)
        && same_text(&a.scope, &b.scope)
}

/// Whether `v` holds a dependency equal to `x`.
pub(crate) fn has_fact(v: &Vec<DependencyFact>, x: &DependencyFact) -> (res: bool)
    ensures
        res == facts_view(v@).contains(fact_view(*x)),
{
    let mut i: usize = 0;
    while i < v.len()
        invariant
            0 <= i <= v@.len(),
            forall|j: int| 0 <= j < i ==> facts_view(v@)[j] != fact_view(*x),
        decreases v@.len() - i,
    {
        if same_fact(&v[i], x) {
            assert(facts_view(v@)[i as int] == fact_view(*x));
            return true;
        }
        i = i + 1;
    }
    false
}

/// Compare one field of two dependencies: `Some` with the order when they differ.
fn field_order(a: &String, b: &String) -> (res: Option<bool>)
    ensures
        a@ == b@ ==> res is None,
        a@ != b@ ==> res == Some(text_less(a@, b@)),
{
    let x = crate::text::chars_of(a.as_str());
    let y = crate::text::chars_of(b.as_str());
    if crate::text::chars_equal(&x, &y) {
        None
    } else {
        Some(crate::reports::lcov::text_lt(&x, &y))
    }
}

/// Whether dependency `a` comes before `b`.
fn fact_less_exec(a: &DependencyFact, b: &DependencyFact) -> (res: bool)
    ensures
        res == fact_less(fact_view(*a), fact_view(*b)),
{
    if let Some(o) = field_order(&a.group, &b.group) {
        return o;
    }
    if let Some(o) = field_order(&a.artifact, &b.artifact) {
        return o;
    }
    if let Some(o) = field_order(&a.artifact_type, &b.artifact_type) {
        return o;
    }
    if let Some(o) = field_order(&a.classifier, &b.classifier) {
        return o;
    }
    if let Some(o) = field_order(&a.version, &b.version) {
        return o;
    }
    let x = crate::text::chars_of(a.scope.as_str());
    let y = crate::text::chars_of(b.scope.as_str());
    crate::reports::lcov::text_lt(&x, &y)
}

/// Inserting after a prefix of smaller items inserts into the rest.
proof fn lemma_insert_fact_after(s: Seq<FactView>, x: FactView, i: int)
    requires
        0 <= i <= s.len(),
        forall|j: int| 0 <= j < i ==> fact_less(#[trigger] s[j], x),
    ensures
        insert_fact(s, x) == s.take(i) + insert_fact(s.skip(i), x),
    decreases i,
{
    if i == 0 {
        assert(s.take(0) =~= seq![]);
        assert(s.skip(0) =~= s);
    } else {
        let t = s.drop_first();
        assert forall|j: int| 0 <= j < i - 1 implies fact_less(#[trigger] t[j], x) by {
            assert(t[j] == s[j + 1]);
        }
        lemma_insert_fact_after(t, x, i - 1);
        assert(t.skip(i - 1) =~= s.skip(i));
        assert(seq![s[0]] + t.take(i - 1) =~= s.take(i));
    }
}

/// Add `x` to the ascending list `v`, before the first item not below it.
fn insert_missing(v: &mut Vec<DependencyFact>, x: DependencyFact)
    ensures
        facts_view(final(v)@) == insert_fact(facts_view(old(v)@), fact_view(x)),
{
    let ghost s = facts_view(v@);
    let mut i: usize = 0;
    while i < v.len() && fact_less_exec(&v[i], &x)
        invariant
            0 <= i <= v@.len(),
            s == facts_view(v@),
            v@ == old(v)@,
            forall|j: int| 0 <= j < i ==> fact_less(#[trigger] s[j], fact_view(x)),
        decreases v@.len() - i,
    {
        i = i + 1;
    }
    proof {
        lemma_insert_fact_after(s, fact_view(x), i as int);
    }
    if i < v.len() {
        assert(s.skip(i as int)[0] == s[i as int]);
        v.insert(i, x);
        assert(facts_view(v@) =~= s.take(i as int) + (seq![fact_view(x)] + s.skip(i as int)));
    } else {
        v.push(x);
        assert(s.skip(i as int) =~= seq![]);
        assert(s.take(i as int) =~= s);
        assert(facts_view(v@) =~= s.take(i as int) + seq![fact_view(x)]);
    }
}

} // verus!

verus! {

/// Where the reading of a log stands, as the reader keeps it.
struct Progress {
    stage: Option<usize>,
    compiled_main: usize,
    compiled_test: usize,
    clean: bool,
    analyzing: bool,
    analyzed: bool,
    success: bool,
    clean_result: bool,
    section: Option<usize>,
    seen_used: bool,
    seen_unused: bool,
    seen_test_only: bool,
    section_filled: bool,
    missing: Vec<DependencyFact>,
}

/// An optional index as an optional integer.
spec fn opt_int(o: Option<usize>) -> Option<int> {
    match o {
        Some(v) => Some(v as int),
        None => None,
    }
}

/// The plain values of the reader's state.
spec fn progress_view(p: Progress) -> LogProgress {
    LogProgress {
        stage: opt_int(p.stage),
        compiled_main: p.compiled_main as int,
        compiled_test: p.compiled_test as int,
        clean: p.clean,
        analyzing: p.analyzing,
        analyzed: p.analyzed,
        success: p.success,
        clean_result: p.clean_result,
        section: opt_int(p.section),
        seen_used: p.seen_used,
        seen_unused: p.seen_unused,
        seen_test_only: p.seen_test_only,
        section_filled: p.section_filled,
        missing: facts_view(p.missing@),
    }
}

/// The digits of a run are digits, and the run stays within `s`.
proof fn lemma_digit_run(s: Seq<char>, i: int)
    requires
        0 <= i <= s.len(),
    ensures
        i <= digit_run(s, i) <= s.len(),
        forall|k: int| i <= k < digit_run(s, i) ==> crate::text::is_digit(#[trigger] s[k]),
    decreases s.len() - i,
{
    if i < s.len() && crate::text::is_digit(s[i]) {
        lemma_digit_run(s, i + 1);
    }
}

/// A goal line.
fn goal_exec(p: &mut Progress, body: &[char], header: &[char]) -> (res: Result<(), MavenUsageError>)
    ensures
        match goal_step(progress_view(*old(p)), body@, header@) {
            Ok(q) => res is Ok && progress_view(*final(p)) == q,
            Err(e) => res is Err && res->Err_0 == e,
        },
{
    let cleaning = text_contains(body, ":clean (default-clean)");
    if p.analyzed {
        return Err(MavenUsageError::NotFinal);
    }
    if cleaning && (p.clean || p.compiled_main != 0 || p.compiled_test != 0) {
        return Err(MavenUsageError::LateClean);
    }
    let stage: Option<usize> = if text_contains(body, ":testCompile (default-testCompile)") {
        Some(1)
    } else if text_contains(body, ":compile (default-compile)") {
        Some(0)
    } else {
        None
    };
    let clean = p.clean || cleaning;
    if text_contains(body, ":analyze") {
        if !crate::text::chars_equal(body, header) || !clean {
            return Err(MavenUsageError::UnsupportedAnalysis);
        }
        p.analyzed = true;
        p.analyzing = true;
    }
    p.stage = stage;
    p.clean = clean;
    Ok(())
}

/// A line before the analysis.
fn compile_exec(p: &mut Progress, body: &[char]) -> (res: Result<(), MavenUsageError>)
    ensures
        match compile_step(progress_view(*old(p)), body@) {
            Ok(q) => res is Ok && progress_view(*final(p)) == q,
            Err(e) => res is Err && res->Err_0 == e,
        },
{
    let s = match p.stage {
        Some(s) => s,
        None => return Ok(()),
    };
    let d = match compiled_count_exec(body) {
        Some(d) => d,
        None => return Ok(()),
    };
    if !p.clean {
        return Err(MavenUsageError::CompileBeforeClean);
    }
    proof {
        reveal_strlit("Compiling ");
        let a = "Compiling "@.len() as int;
        lemma_digit_run(body@, a);
        assert forall|k: int| 0 <= k < d@.len() implies crate::text::is_digit(#[trigger] d@[k]) by {
            assert(d@[k] == body@[a + k]);
        }
        assert(crate::text::unsigned_part(d@) == d@);
    }
    let v = match crate::text::parse_usize(&d) {
        Some(v) => v,
        None => return Err(MavenUsageError::CountOverflow),
    };
    if s == 0 {
        match p.compiled_main.checked_add(v) {
            Some(t) => p.compiled_main = t,
            None => return Err(MavenUsageError::CountOverflow),
        }
    } else {
        match p.compiled_test.checked_add(v) {
            Some(t) => p.compiled_test = t,
            None => return Err(MavenUsageError::CountOverflow),
        }
    }
    Ok(())
}

/// An entry of dependency section `k`.
fn entry_exec(p: &mut Progress, k: usize, body: &[char], facts: &ProjectFacts) -> (res: Result<(), MavenUsageError>)
    ensures
        match entry_step(
            progress_view(*old(p)),
            k as int,
            body@,
            facts_view(facts.resolved@),
            facts_view(facts.declared@),
        ) {
            Ok(q) => res is Ok && progress_view(*final(p)) == q,
            Err(e) => res is Err && res->Err_0 == e,
        },
{
    let t = crate::text::trimmed(body);
    let d = match coordinate_chars(&t) {
        Ok(d) => d,
        Err(e) => return Err(e),
    };
    if !has_fact(&facts.resolved, &d) {
        return Err(MavenUsageError::Unresolved);
    }
    if k == 0 {
        if has_fact(&facts.declared, &d) || has_fact(&p.missing, &d) {
            return Err(MavenUsageError::ContradictoryUndeclared);
        }
        insert_missing(&mut p.missing, d);
    } else if !has_fact(&facts.declared, &d) {
        return Err(MavenUsageError::Undeclared);
    }
    p.section_filled = true;
    Ok(())
}

/// The section a heading line opens.
fn section_exec(body: &[char]) -> (res: Option<usize>)
    ensures
        opt_int(res) == section_of(body@),
{
    if crate::text::text_is(body, "Used undeclared dependencies found:") {
        Some(0)
    } else if crate::text::text_is(body, "Unused declared dependencies found:") {
        Some(1)
    } else if crate::text::text_is(body, "Non-test scoped test only dependencies found:") {
        Some(2)
    } else {
        None
    }
}

/// A line after the analysis goal.
fn analysis_exec(p: &mut Progress, body: &[char], facts: &ProjectFacts) -> (res: Result<(), MavenUsageError>)
    ensures
        match analysis_step(
            progress_view(*old(p)),
            body@,
            facts_view(facts.resolved@),
            facts_view(facts.declared@),
        ) {
            Ok(q) => res is Ok && progress_view(*final(p)) == q,
            Err(e) => res is Err && res->Err_0 == e,
        },
{
    if crate::text::text_is(body, "BUILD SUCCESS") {
        p.success = true;
    }
    if crate::text::starts_with_text(body, "-----") {
        if p.section.is_some() && !p.section_filled {
            return Err(MavenUsageError::EmptySection);
        }
        p.analyzing = false;
        return Ok(());
    }
    if !p.analyzing || crate::text::is_blank(body) {
        return Ok(());
    }
    if crate::text::text_is(body, "No dependency problems found") {
        if p.clean_result || p.seen_used || p.seen_unused || p.seen_test_only {
            return Err(MavenUsageError::Contradictory);
        }
        p.clean_result = true;
        return Ok(());
    }
    match section_exec(body) {
        Some(k) => {
            let already = if k == 0 {
                p.seen_used
            } else if k == 1 {
                p.seen_unused
            } else {
                p.seen_test_only
            };
            if p.clean_result || already || (p.section.is_some() && !p.section_filled) {
                return Err(MavenUsageError::DuplicateSection);
            }
            p.section = Some(k);
            if k == 0 {
                p.seen_used = true;
            } else if k == 1 {
                p.seen_unused = true;
            } else {
                p.seen_test_only = true;
            }
            p.section_filled = false;
            Ok(())
        },
        None => match p.section {
            Some(k) => entry_exec(p, k, body, facts),
            None => Err(MavenUsageError::Unrecognized),
        },
    }
}

/// One line of the log.
fn step_exec(p: &mut Progress, line: &[char], header: &[char], facts: &ProjectFacts) -> (res: Result<(), MavenUsageError>)
    ensures
        match step(
            progress_view(*old(p)),
            line@,
            header@,
            facts_view(facts.resolved@),
            facts_view(facts.declared@),
        ) {
            Ok(q) => res is Ok && progress_view(*final(p)) == q,
            Err(e) => res is Err && res->Err_0 == e,
        },
{
    match body_exec(line) {
        None => if p.analyzing && !crate::text::is_blank(line) {
            Err(MavenUsageError::Unrecognized)
        } else {
            Ok(())
        },
        Some(body) => if crate::text::starts_with_text(&body, "--- ") {
            goal_exec(p, &body, header)
        } else if !p.analyzed {
            compile_exec(p, &body)
        } else {
            analysis_exec(p, &body, facts)
        },
    }
}

} // verus!

verus! {

/// The value a dependency-plugin setting must have, if the setting is allowed.
fn analysis_setting_exec(name: &[char]) -> (res: Option<&'static str>)
    ensures
        match analysis_setting(name@) {
            Some(v) => res matches Some(r) && r@ == v,
            None => res is None,
        },
{
    if crate::text::text_is(name, "verbose") || crate::text::text_is(name, "scriptableOutput")
        || crate::text::text_is(name, "outputXML") || crate::text::text_is(name, "failOnWarning")
        || crate::text::text_is(name, "skip") {
        Some("false")
    } else if crate::text::text_is(name, "analyzer") {
        Some("default")
    } else {
        None
    }
}

/// Whether a compiler setting prevents complete source accounting.
fn compiler_setting_exec(name: &[char]) -> (res: bool)
    ensures
        res == compiler_setting(name@),
{
    crate::text::text_is(name, "skip") || crate::text::text_is(name, "skipMain")
        || crate::text::text_is(name, "skipMultiThreadWarning") || crate::text::text_is(
        name,
        "skipTests",
    ) || crate::text::text_is(name, "includes") || crate::text::text_is(name, "testIncludes")
        || crate::text::text_is(name, "excludes") || crate::text::text_is(name, "testExcludes")
        || crate::text::text_is(name, "compileSourceRoots") || crate::text::text_is(
        name,
        "outputDirectory",
    ) || crate::text::text_is(name, "testOutputDirectory") || crate::text::text_is(
        name,
        "compilerId",
    ) || crate::text::text_is(name, "compilerArgs") || crate::text::text_is(
        name,
        "compilerArguments",
    ) || crate::text::text_is(name, "executable")
}

/// Why the parameters `cs` of a configuration are refused, if they are.
fn parameters_check(nodes: &Vec<XmlNode>, dependency: bool, cs: &Vec<usize>) -> (res: Option<MavenUsageError>)
    requires
        forall|i: int| 0 <= i < cs@.len() ==> cs@[i] < nodes@.len(),
    ensures
        res == parameters_error(nodes@, dependency, indices(cs@)),
{
    let ghost all = indices(cs@);
    let mut i: usize = 0;
    assert(all.skip(0) =~= all);
    while i < cs.len()
        invariant
            0 <= i <= cs@.len(),
            all == indices(cs@),
            forall|q: int| 0 <= q < cs@.len() ==> cs@[q] < nodes@.len(),
            parameters_error(nodes@, dependency, all) == parameters_error(nodes@, dependency, all.skip(i as int)),
        decreases cs@.len() - i,
    {
        assert(all.skip(i as int)[0] == cs@[i as int] as int);
        assert(all.skip(i as int).drop_first() =~= all.skip(i + 1));
        let node = &nodes[cs[i]];
        let name = crate::text::chars_of(node.name.as_str());
        if dependency {
            match analysis_setting_exec(&name) {
                None => return Some(MavenUsageError::UnsupportedAnalysisConfiguration),
                Some(expected) => match &node.text {
                    Some(t) => {
                        let tc = crate::text::chars_of(t.as_str());
                        let tt = crate::text::trimmed(&tc);
                        if !crate::text::text_is(&tt, expected) {
                            return Some(MavenUsageError::UnsupportedAnalysisConfiguration);
                        }
                    },
                    None => return Some(MavenUsageError::UnsupportedAnalysisConfiguration),
                },
            }
        } else if compiler_setting_exec(&name) {
            return Some(MavenUsageError::UnsupportedCompilerConfiguration);
        }
        i = i + 1;
    }
    assert(all.skip(i as int) =~= seq![]);
    None
}

/// Why the configurations among the elements `ds` of a plugin are refused.
fn configurations_check(nodes: &Vec<XmlNode>, dependency: bool, ds: &Vec<usize>) -> (res: Option<MavenUsageError>)
    requires
        forall|i: int| 0 <= i < ds@.len() ==> ds@[i] < nodes@.len(),
    ensures
        res == configurations_error(nodes@, dependency, indices(ds@)),
{
    proof {
        reveal_strlit("");
        assert(""@ =~= seq![]);
    }
    let ghost all = indices(ds@);
    let mut i: usize = 0;
    assert(all.skip(0) =~= all);
    while i < ds.len()
        invariant
            0 <= i <= ds@.len(),
            all == indices(ds@),
            ""@ == Seq::<char>::empty(),
            forall|q: int| 0 <= q < ds@.len() ==> ds@[q] < nodes@.len(),
            configurations_error(nodes@, dependency, all) == configurations_error(
                nodes@,
                dependency,
                all.skip(i as int),
            ),
        decreases ds@.len() - i,
    {
        assert(all.skip(i as int)[0] == ds@[i as int] as int);
        assert(all.skip(i as int).drop_first() =~= all.skip(i + 1));
        if crate::xml::is_tag(&nodes[ds[i]], "configuration") {
            let cs = crate::compatibility::children_exec(nodes, ds[i], "");
            if let Some(e) = parameters_check(nodes, dependency, &cs) {
                return Some(e);
            }
        }
        i = i + 1;
    }
    assert(all.skip(i as int) =~= seq![]);
    None
}

/// Why plugin `p` of the model is refused, if it is.
fn plugin_check(nodes: &Vec<XmlNode>, p: usize) -> (res: Option<MavenUsageError>)
    requires
        p < nodes@.len(),
    ensures
        res == plugin_error(nodes@, p as int),
{
    let arts = crate::compatibility::children_exec(nodes, p, "artifactId");
    let artifact: Option<Vec<char>> = if arts.len() == 0 {
        None
    } else {
        assert(indices(arts@)[0] == arts@[0] as int);
        match &nodes[arts[0]].text {
            Some(t) => Some(crate::text::chars_of(t.as_str())),
            None => None,
        }
    };
    assert(match artifact_of(nodes@, p as int) {
        Some(a) => artifact matches Some(v) && v@ == a,
        None => artifact is None,
    });
    let dependency = match &artifact {
        Some(a) => crate::text::text_is(a, "maven-dependency-plugin"),
        None => false,
    };
    let compiler = match &artifact {
        Some(a) => crate::text::text_is(a, "maven-compiler-plugin"),
        None => false,
    };
    if !dependency && !compiler {
        return None;
    }
    if dependency && crate::compatibility::children_exec(nodes, p, "dependencies").len() > 0 {
        return Some(MavenUsageError::CustomAnalyzer);
    }
    let ds = crate::compatibility::descendants_exec(nodes, p);
    configurations_check(nodes, dependency, &ds)
}

/// Why the plugins among the elements `ds` of the model are refused.
fn plugins_check(nodes: &Vec<XmlNode>, ds: &Vec<usize>) -> (res: Option<MavenUsageError>)
    requires
        forall|i: int| 0 <= i < ds@.len() ==> ds@[i] < nodes@.len(),
    ensures
        res == plugins_error(nodes@, indices(ds@)),
{
    let ghost all = indices(ds@);
    let mut i: usize = 0;
    assert(all.skip(0) =~= all);
    while i < ds.len()
        invariant
            0 <= i <= ds@.len(),
            all == indices(ds@),
            forall|q: int| 0 <= q < ds@.len() ==> ds@[q] < nodes@.len(),
            plugins_error(nodes@, all) == plugins_error(nodes@, all.skip(i as int)),
        decreases ds@.len() - i,
    {
        assert(all.skip(i as int)[0] == ds@[i as int] as int);
        assert(all.skip(i as int).drop_first() =~= all.skip(i + 1));
        if crate::xml::is_tag(&nodes[ds[i]], "plugin") {
            if let Some(e) = plugin_check(nodes, ds[i]) {
                return Some(e);
            }
        }
        i = i + 1;
    }
    assert(all.skip(i as int) =~= seq![]);
    None
}

/// Why the effective model `model` does not allow complete usage evidence.
fn model_check(model: &[u8]) -> (res: Option<MavenUsageError>)
    ensures
        res == model_error(model@),
{
    let text = match crate::text::text_of_bytes(model) {
        None => return Some(MavenUsageError::InvalidModel),
        Some(t) => t,
    };
    proof {
        vstd::utf8::encode_utf8_decode_utf8(text@);
    }
    let nodes = match crate::xml::parse_xml(text, u32::MAX) {
        None => return Some(MavenUsageError::InvalidModel),
        Some(n) => n,
    };
    if !crate::xml::check_well_formed(&nodes) {
        return Some(MavenUsageError::InvalidModel);
    }
    let ds = crate::compatibility::descendants_exec(&nodes, 0);
    plugins_check(&nodes, &ds)
}

} // verus!

verus! {

/// Whether `path` is a Java source under `root`.
fn java_under_exec(path: &[char], root: &String) -> (res: bool)
    ensures
        res == java_under(path@, root@),
{
    let n = path.len();
    let java = n >= 5 && path[n - 5] == '.' && path[n - 4] == 'j' && path[n - 3] == 'a' && path[n
        - 2] == 'v' && path[n - 1] == 'a';
    assert(java == crate::compatibility::has_suffix(path@, ".java"@)) by {
        reveal_strlit(".java");
        assert(".java"@ =~= seq!['.', 'j', 'a', 'v', 'a']);
        if n >= 5 {
            assert(path@.skip(n - 5) =~= seq![path@[n - 5], path@[n - 4], path@[n - 3], path@[n - 2], path@[n - 1]]);
        }
    }
    if !java || !crate::text::starts_with_text(path, root.as_str()) {
        return false;
    }
    let r = crate::text::chars_of(root.as_str()).len();
    r < n && path[r] == '/'
}

/// How many snapshot files are Java sources under `root`.
fn java_count_exec(files: &Vec<(String, crate::provenance::File)>, root: &String) -> (res: usize)
    ensures
        res == java_count(files@, root@),
{
    let mut count: usize = 0;
    let mut k: usize = 0;
    while k < files.len()
        invariant
            0 <= k <= files@.len(),
            count <= k,
            count == java_count_upto(files@, root@, k as int),
        decreases files@.len() - k,
    {
        let path = crate::text::chars_of(files[k].0.as_str());
        if java_under_exec(&path, root) {
            count = count + 1;
        }
        k = k + 1;
    }
    count
}

/// Read the analysis log `text` line by line and cross-check what it proves.
fn read_log(text: &[char], facts: &ProjectFacts, snapshot: &Snapshot) -> (res: Result<DependencyUsage, MavenUsageError>)
    ensures
        match log_outcome(text@, *facts, snapshot.files@) {
            Ok(u) => res matches Ok(r) && usage_view(r) == u,
            Err(e) => res is Err && res->Err_0 == e,
        },
{
    let coordinate = crate::text::chars_of(facts.coordinate.as_str());
    let parts = crate::text::split_char(&coordinate, ':');
    assert(crate::text::views(parts@).len() == parts@.len());
    if parts.len() < 2 {
        return Err(MavenUsageError::InvalidIdentity);
    }
    let mut header = crate::text::chars_of("--- dependency:3.8.1:analyze-only (default-cli) @ ");
    crate::text::extend_chars(&mut header, parts[1].as_slice());
    let tail = crate::text::chars_of(" ---");
    crate::text::extend_chars(&mut header, &tail);
    let ghost resolved = facts_view(facts.resolved@);
    let ghost declared = facts_view(facts.declared@);
    assert(header@ == analysis_header(pieces(facts.coordinate@, ':')[1])) by {
        assert(pieces(facts.coordinate@, ':')[1] == parts@[1]@);
    }
    let ls = crate::text::split_lines(text);
    let ghost all = lines(text@);
    let mut p = Progress {
        stage: None,
        compiled_main: 0,
        compiled_test: 0,
        clean: false,
        analyzing: false,
        analyzed: false,
        success: false,
        clean_result: false,
        section: None,
        seen_used: false,
        seen_unused: false,
        seen_test_only: false,
        section_filled: false,
        missing: Vec::new(),
    };
    assert(progress_view(p) =~= initial_progress()) by {
        assert(facts_view(p.missing@) =~= seq![]);
    }
    assert(all.skip(0) =~= all);
    let mut i: usize = 0;
    while i < ls.len()
        invariant
            0 <= i <= ls@.len(),
            all == crate::text::views(ls@),
            all == lines(text@),
            pieces(facts.coordinate@, ':').len() >= 2,
            header@ == analysis_header(pieces(facts.coordinate@, ':')[1]),
            resolved == facts_view(facts.resolved@),
            declared == facts_view(facts.declared@),
            run(initial_progress(), all, header@, resolved, declared) == run(
                progress_view(p),
                all.skip(i as int),
                header@,
                resolved,
                declared,
            ),
        decreases ls@.len() - i,
    {
        assert(all.skip(i as int)[0] == ls@[i as int]@);
        assert(all.skip(i as int).drop_first() =~= all.skip(i + 1));
        if let Err(e) = step_exec(&mut p, ls[i].as_slice(), &header, facts) {
            return Err(e);
        }
        i = i + 1;
    }
    assert(all.skip(i as int) =~= seq![]);
    if !p.analyzed || !p.success || p.analyzing || (!p.clean_result && !(p.seen_used || p.seen_unused
        || p.seen_test_only)) {
        return Err(MavenUsageError::Incomplete);
    }
    let main = java_count_exec(&snapshot.files, &facts.source_root);
    let test = java_count_exec(&snapshot.files, &facts.test_source_root);
    if (main == 0 && test == 0) || main != p.compiled_main || test != p.compiled_test {
        return Err(MavenUsageError::InventoryMismatch);
    }
    Ok(
        DependencyUsage {
            analyzer: "maven-dependency-plugin:3.8.1/default".to_owned(),
            compiled_main_sources: main,
            compiled_test_sources: test,
            used_undeclared: p.missing,
        },
    )
}

/// Read a Maven Dependency Plugin 3.8.1 `analyze-only` log against the effective
/// model and the resolved project facts. Success needs a clean build whose
/// compilations account for exactly the snapshot's Java sources under the main
/// and test roots, a complete analysis of this module, and every reported
/// dependency resolved and consistent with the declarations; the used undeclared
/// dependencies come back in ascending order.
pub fn parse(model: &[u8], log: &[u8], facts: &ProjectFacts, snapshot: &Snapshot) -> (res: Result<DependencyUsage, MavenUsageError>)
    ensures
        match usage_outcome(model@, log@, *facts, snapshot.files@) {
            Ok(u) => res matches Ok(r) && usage_view(r) == u,
            Err(e) => res is Err && res->Err_0 == e,
        },
{
    if log.len() > MAX_LOG_BYTES || model.len() > crate::reports::MAX_REPORT_BYTES {
        return Err(MavenUsageError::TooLarge);
    }
    if let Some(e) = model_check(model) {
        return Err(e);
    }
    let text = match crate::text::text_of_bytes(log) {
        None => return Err(MavenUsageError::NotUtf8),
        Some(t) => t,
    };
    proof {
        vstd::utf8::encode_utf8_decode_utf8(text@);
    }
    let chars = crate::text::chars_of(text);
    if crate::text::contains_char(&chars, '\0') || crate::text::contains_char(&chars, '\u{1b}') {
        return Err(MavenUsageError::NotPlain);
    }
    read_log(&chars, facts, snapshot)
}

} // verus!

verus! {

/// Each dependency comes strictly before the next.
pub open spec fn facts_ascending(s: Seq<FactView>) -> bool {
    forall|i: int, j: int| 0 <= i < j < s.len() ==> fact_less(#[trigger] s[i], #[trigger] s[j])
}

/// The dependency order is a strict total order.
proof fn lemma_fact_order(a: FactView, b: FactView, c: FactView)
    ensures
        !fact_less(a, a),
        fact_less(a, b) && fact_less(b, c) ==> fact_less(a, c),
        a != b ==> fact_less(a, b) || fact_less(b, a),
        !(fact_less(a, b) && fact_less(b, a)),
{
    text_less_irreflexive(a.0);
    text_less_irreflexive(a.1);
    text_less_irreflexive(a.2);
    text_less_irreflexive(a.3);
    text_less_irreflexive(a.4);
    text_less_irreflexive(a.5);
    text_less_asymmetric(a.0, b.0);
    text_less_asymmetric(a.1, b.1);
    text_less_asymmetric(a.2, b.2);
    text_less_asymmetric(a.3, b.3);
    text_less_asymmetric(a.4, b.4);
    text_less_asymmetric(a.5, b.5);
    if a.0 != b.0 {
        text_less_total(a.0, b.0);
    } else if a.1 != b.1 {
        text_less_total(a.1, b.1);
    } else if a.2 != b.2 {
        text_less_total(a.2, b.2);
    } else if a.3 != b.3 {
        text_less_total(a.3, b.3);
    } else if a.4 != b.4 {
        text_less_total(a.4, b.4);
    } else if a.5 != b.5 {
        text_less_total(a.5, b.5);
    }
    if fact_less(a, b) && fact_less(b, c) {
        if text_less(a.0, b.0) && text_less(b.0, c.0) {
            text_less_transitive(a.0, b.0, c.0);
        }
        if text_less(a.1, b.1) && text_less(b.1, c.1) {
            text_less_transitive(a.1, b.1, c.1);
        }
        if text_less(a.2, b.2) && text_less(b.2, c.2) {
            text_less_transitive(a.2, b.2, c.2);
        }
        if text_less(a.3, b.3) && text_less(b.3, c.3) {
            text_less_transitive(a.3, b.3, c.3);
        }
        if text_less(a.4, b.4) && text_less(b.4, c.4) {
            text_less_transitive(a.4, b.4, c.4);
        }
        if text_less(a.5, b.5) && text_less(b.5, c.5) {
            text_less_transitive(a.5, b.5, c.5);
        }
    }
}

/// Inserting a new dependency keeps the list ascending and adds exactly it.
proof fn lemma_insert_fact(s: Seq<FactView>, x: FactView)
    requires
        facts_ascending(s),
        !s.contains(x),
    ensures
        facts_ascending(insert_fact(s, x)),
        forall|y: FactView| insert_fact(s, x).contains(y) <==> (s.contains(y) || y == x),
    decreases s.len(),
{
    if s.len() == 0 {
        assert(insert_fact(s, x) =~= seq![x]);
        assert forall|y: FactView| insert_fact(s, x).contains(y) <==> (s.contains(y) || y == x) by {
            if y == x {
                assert(insert_fact(s, x)[0] == x);
            }
        }
    } else if fact_less(s[0], x) {
        let t = s.drop_first();
        assert forall|i: int, j: int| 0 <= i < j < t.len() implies fact_less(#[trigger] t[i], #[trigger] t[j]) by {
            assert(t[i] == s[i + 1] && t[j] == s[j + 1]);
        }
        assert(!t.contains(x)) by {
            if t.contains(x) {
                let k = choose|k: int| 0 <= k < t.len() && t[k] == x;
                assert(s[k + 1] == x);
            }
        }
        lemma_insert_fact(t, x);
        let r = insert_fact(t, x);
        assert(insert_fact(s, x) == seq![s[0]] + r);
        assert forall|k: int| 0 <= k < r.len() implies fact_less(s[0], #[trigger] r[k]) by {
            assert(r.contains(r[k]));
            if r[k] == x {
            } else {
                assert(t.contains(r[k]));
                let m = choose|m: int| 0 <= m < t.len() && t[m] == r[k];
                assert(s[m + 1] == r[k]);
                assert(fact_less(s[0], s[m + 1]));
            }
        }
        let u = seq![s[0]] + r;
        assert forall|i: int, j: int| 0 <= i < j < u.len() implies fact_less(#[trigger] u[i], #[trigger] u[j]) by {
            if i == 0 {
                assert(u[j] == r[j - 1]);
            } else {
                assert(u[i] == r[i - 1] && u[j] == r[j - 1]);
            }
        }
        assert forall|y: FactView| u.contains(y) <==> (s.contains(y) || y == x) by {
            if u.contains(y) {
                let k = choose|k: int| 0 <= k < u.len() && u[k] == y;
                if k == 0 {
                    assert(s[0] == y);
                } else {
                    assert(r[k - 1] == y);
                    assert(r.contains(y));
                    if t.contains(y) {
                        let m = choose|m: int| 0 <= m < t.len() && t[m] == y;
                        assert(s[m + 1] == y);
                    }
                }
            }
            if s.contains(y) {
                let k = choose|k: int| 0 <= k < s.len() && s[k] == y;
                if k == 0 {
                    assert(u[0] == y);
                } else {
                    assert(t[k - 1] == y);
                    assert(t.contains(y));
                    assert(r.contains(y));
                    let m = choose|m: int| 0 <= m < r.len() && r[m] == y;
                    assert(u[m + 1] == y);
                }
            }
            if y == x {
                assert(r.contains(x));
                let m = choose|m: int| 0 <= m < r.len() && r[m] == x;
                assert(u[m + 1] == x);
            }
        }
    } else {
        let u = seq![x] + s;
        assert(insert_fact(s, x) == u);
        lemma_fact_order(x, s[0], x);
        assert(s[0] != x);
        assert(fact_less(x, s[0]));
        assert forall|i: int, j: int| 0 <= i < j < u.len() implies fact_less(#[trigger] u[i], #[trigger] u[j]) by {
            if i == 0 {
                assert(u[j] == s[j - 1]);
                if j - 1 > 0 {
                    assert(fact_less(s[0], s[j - 1]));
                    lemma_fact_order(x, s[0], s[j - 1]);
                }
            } else {
                assert(u[i] == s[i - 1] && u[j] == s[j - 1]);
            }
        }
        assert forall|y: FactView| u.contains(y) <==> (s.contains(y) || y == x) by {
            if u.contains(y) {
                let k = choose|k: int| 0 <= k < u.len() && u[k] == y;
                if k > 0 {
                    assert(s[k - 1] == y);
                }
            }
            if s.contains(y) {
                let k = choose|k: int| 0 <= k < s.len() && s[k] == y;
                assert(u[k + 1] == y);
            }
            if y == x {
                assert(u[0] == x);
            }
        }
    }
}

/// Reading one line keeps the used undeclared dependencies ascending.
proof fn lemma_step_ascending(
    p: LogProgress,
    line: Seq<char>,
    header: Seq<char>,
    resolved: Seq<FactView>,
    declared: Seq<FactView>,
)
    requires
        facts_ascending(p.missing),
    ensures
        step(p, line, header, resolved, declared) matches Ok(q) ==> facts_ascending(q.missing),
{
    if let Some(body) = body_of(line) {
        if !has_prefix(body, "--- "@) && p.analyzed {
            let p1 = LogProgress { success: p.success || body == "BUILD SUCCESS"@, ..p };
            if !has_prefix(body, "-----"@) && p1.analyzing && !blank(body) && body != "No dependency problems found"@ {
                if section_of(body) is None {
                    if let Some(k) = p1.section {
                        if let Ok(d) = coordinate_of(trim(body)) {
                            if k == 0 && !p1.missing.contains(d) {
                                lemma_insert_fact(p1.missing, d);
                            }
                        }
                    }
                }
            }
        }
    }
}

/// Reading lines keeps the used undeclared dependencies ascending.
proof fn lemma_run_ascending(
    p: LogProgress,
    ls: Seq<Seq<char>>,
    header: Seq<char>,
    resolved: Seq<FactView>,
    declared: Seq<FactView>,
)
    requires
        facts_ascending(p.missing),
    ensures
        run(p, ls, header, resolved, declared) matches Ok(q) ==> facts_ascending(q.missing),
    decreases ls.len(),
{
    if ls.len() > 0 {
        lemma_step_ascending(p, ls[0], header, resolved, declared);
        if let Ok(q) = step(p, ls[0], header, resolved, declared) {
            lemma_run_ascending(q, ls.drop_first(), header, resolved, declared);
        }
    }
}

/// A Maven usage analysis gives its used undeclared dependencies in strictly
/// ascending order, each once.
pub proof fn used_undeclared_ascending(
    model: Seq<u8>,
    log: Seq<u8>,
    facts: ProjectFacts,
    files: Seq<(String, crate::provenance::File)>,
)
    requires
        usage_outcome(model, log, facts, files) is Ok,
    ensures
        facts_ascending(usage_outcome(model, log, facts, files)->Ok_0.3),
{
    let text = vstd::utf8::decode_utf8(log);
    let parts = pieces(facts.coordinate@, ':');
    assert(facts_ascending(initial_progress().missing));
    lemma_run_ascending(
        initial_progress(),
        lines(text),
        analysis_header(parts[1]),
        facts_view(facts.resolved@),
        facts_view(facts.declared@),
    );
}

} // verus!

verus! {

/// No character of `t` is a colon.
pub open spec fn colon_free(t: Seq<char>) -> bool {
    forall|k: int| 0 <= k < t.len() ==> #[trigger] t[k] != ':'
}

/// Rejoining the first `k + 1` pieces adds the `k`-th after a separator.
proof fn lemma_rejoin_step(ps: Seq<Seq<char>>, c: char, k: int)
    requires
        1 <= k < ps.len(),
    ensures
        crate::text::rejoined(ps.take(k + 1), c) == crate::text::rejoined(ps.take(k), c) + seq![c] + ps[k],
{
    assert(ps.take(k + 1).drop_last() =~= ps.take(k));
    assert(ps.take(k + 1).last() == ps[k]);
}

/// A parsed coordinate is its text split at the colons: group, artifact, type,
/// the classifier when there is one, version and scope, joined with `:`, give
/// the text back, and no field holds a colon. So the version is always the
/// part before the scope.
pub proof fn coordinate_fields_rejoin(value: Seq<char>)
    ensures
        coordinate_of(value) matches Ok(f) ==> {
            &&& f.3.len() == 0 ==> value == f.0 + seq![':'] + f.1 + seq![':'] + f.2 + seq![':'] + f.4 + seq![':'] + f.5
            &&& f.3.len() > 0 ==> value == f.0 + seq![':'] + f.1 + seq![':'] + f.2 + seq![':'] + f.3 + seq![':'] + f.4
                + seq![':'] + f.5
            &&& colon_free(f.0) && colon_free(f.1) && colon_free(f.2) && colon_free(f.3) && colon_free(f.4)
                && colon_free(f.5)
        },
{
    let parts = crate::text::pieces(value, ':');
    let n = parts.len();
    crate::text::pieces_rejoin(value, ':');
    if coordinate_of(value) is Ok {
        let f = coordinate_of(value)->Ok_0;
        let c = ':';
        assert(!bad_part(parts[3]));
        assert(crate::text::rejoined(parts.take(1), c) == parts[0]);
        lemma_rejoin_step(parts, c, 1);
        lemma_rejoin_step(parts, c, 2);
        lemma_rejoin_step(parts, c, 3);
        lemma_rejoin_step(parts, c, 4);
        if n == 6 {
            lemma_rejoin_step(parts, c, 5);
        }
        assert(parts.take(n as int) =~= parts);
        assert forall|i: int| 0 <= i < n implies colon_free(#[trigger] parts[i]) by {
            assert forall|k: int| 0 <= k < parts[i].len() implies #[trigger] parts[i][k] != ':' by {
                assert(crate::text::pieces(value, ':')[i][k] != ':');
            }
        }
        if n == 5 {
            assert(f.3 == Seq::<char>::empty());
            assert(value =~= f.0 + seq![':'] + f.1 + seq![':'] + f.2 + seq![':'] + f.4 + seq![':'] + f.5);
        } else {
            assert(value =~= f.0 + seq![':'] + f.1 + seq![':'] + f.2 + seq![':'] + f.3 + seq![':'] + f.4 + seq![':'] + f.5);
        }
        assert(colon_free(seq![]));
    }
}

} // verus!
