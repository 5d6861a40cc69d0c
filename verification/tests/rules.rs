use qualitygate::file_patterns::{file_pattern_guidance, matches_file_language};
use qualitygate::json::parse_json;
use qualitygate::provenance::File;
use qualitygate::rules::{evaluate, evaluate_as, Change, Evidence, RuleError, RuleOutcome, RuleSetting, Snapshot};

fn setting(parameters: &str) -> RuleSetting {
    RuleSetting { parameters: parse_json(parameters).unwrap(), provenance_required: false }
}

fn file(bytes: &[u8]) -> File {
    File { bytes: bytes.to_vec(), executable: false }
}

fn snapshot(path: &str, base: Option<&str>, current: &[u8], added_lines: Vec<usize>) -> Snapshot {
    Snapshot {
        files: vec![(path.into(), file(current))],
        base_files: base.map(|b| vec![(path.to_string(), file(b.as_bytes()))]).unwrap_or_default(),
        changes: vec![Change {
            path: path.into(),
            kind: if base.is_some() { "modified".into() } else { "added".into() },
            old_path: base.map(|_| path.to_string()),
            added_lines,
            included: true,
        }],
        commits: vec![],
        content_digest: "digest".into(),
    }
}

fn completed(outcome: RuleOutcome) -> (usize, Vec<qualitygate::rules::Diagnostic>) {
    match outcome {
        RuleOutcome::Completed { matched_entities, diagnostics } => (matched_entities, diagnostics),
        other => panic!("not completed: {other:?}"),
    }
}

fn blocked(outcome: RuleOutcome) -> RuleError {
    match outcome {
        RuleOutcome::Blocked { error } => error,
        other => panic!("not blocked: {other:?}"),
    }
}

#[test]
fn literal_secret_rule_checks_only_added_java_files_and_hides_the_value() {
    let options = setting(r#"{"pattern":"(?i)password\\s*=\\s*\"[^\"]{4,}\"","languages":["java"]}"#);
    let added = snapshot("src/Main.java", None, b"class Main { String password = \"private-value\"; }\n", vec![1]);
    let found = evaluate_as("no-hardcoded-secrets", "file-pattern", &options, &added);
    assert!(!format!("{found:?}").contains("private-value"));
    let (matched, diagnostics) = completed(found);
    assert_eq!(matched, 1);
    assert_eq!(diagnostics.len(), 1);
    assert!(matches!(&diagnostics[0].evidence[0], (k, Evidence::Text(v)) if k == "assertion" && v == "forbid_pattern"));
    assert_eq!(diagnostics[0].message, "Added Java file contains a configured literal credential pattern");
    let range = diagnostics[0].range.unwrap();
    assert_eq!((range.start_line, range.end_line), (1, 1));
    let modified = snapshot(
        "src/Main.java",
        Some("class Main {}\n"),
        b"class Main { String password = \"private-value\"; }\n",
        vec![1],
    );
    let (matched, diagnostics) = completed(evaluate_as("no-hardcoded-secrets", "file-pattern", &options, &modified));
    assert_eq!((matched, diagnostics.len()), (0, 0));
    let non_java = snapshot("src/Main.txt", None, b"password = \"private-value\"\n", vec![1]);
    assert_eq!(completed(evaluate_as("no-hardcoded-secrets", "file-pattern", &options, &non_java)).0, 0);
    let invalid = snapshot("src/Main.java", None, &[0xff], vec![1]);
    assert_eq!(blocked(evaluate_as("no-hardcoded-secrets", "file-pattern", &options, &invalid)), RuleError::NotUtf8);
    let excessive = snapshot("src/Main.java", None, "String password = \"exposed\";\n".repeat(10_001).as_bytes(), vec![]);
    assert_eq!(
        blocked(evaluate_as("no-hardcoded-secrets", "file-pattern", &options, &excessive)),
        RuleError::TooManyDiagnostics
    );
}

#[test]
fn native_and_neutral_file_rules_do_not_pass_unreadable_selected_inputs() {
    let native = setting(r#"{"pattern":"\\bstrcpy\\s*\\(","languages":["c","cpp"]}"#);
    let bad_native = snapshot("src/main.cpp", None, &[0xff], vec![1]);
    assert_eq!(blocked(evaluate_as("no-unsafe-string", "file-pattern", &native, &bad_native)), RuleError::NotUtf8);
    let unsupported = setting(r#"{"pattern":"strcpy","languages":["unknown"]}"#);
    assert_eq!(
        blocked(evaluate_as("no-unsafe-string", "file-pattern", &unsupported, &bad_native)),
        RuleError::UnsupportedLanguage
    );
    let good = snapshot("src/main.cpp", None, b"int main() {\n  strcpy(dst, src);\n}\n", vec![1, 2, 3]);
    let (matched, diagnostics) = completed(evaluate_as("no-unsafe-string", "file-pattern", &native, &good));
    assert_eq!(matched, 1);
    assert_eq!(diagnostics[0].range.unwrap().start_line, 2);
    assert_eq!(diagnostics[0].fix, "Use a length-bounded API and verify the destination capacity");
    let filtered = setting(r#"{"pattern":"strcpy","languages":[],"paths":["lib/**"]}"#);
    assert_eq!(completed(evaluate_as("no-unsafe-string", "file-pattern", &filtered, &good)).0, 0);
    let bad_glob = setting(r#"{"pattern":"strcpy","languages":[],"paths":["["]}"#);
    assert_eq!(blocked(evaluate_as("no-unsafe-string", "file-pattern", &bad_glob, &good)), RuleError::InvalidGlob);
    assert_eq!(blocked(evaluate_as("x", "file-pattern", &setting(r#"{"languages":[]}"#), &good)), RuleError::MissingParameter);
    assert_eq!(blocked(evaluate_as("x", "file-pattern", &setting(r#"{"pattern":"("}"#), &good)), RuleError::InvalidPattern);
    assert_eq!(blocked(evaluate_as("x", "file-pattern", &setting(r#"{"pattern":"a"}"#), &good)), RuleError::MissingParameter);
    assert_eq!(blocked(evaluate_as("x", "file-pattern", &setting(r#"{"pattern":"a","languages":"java"}"#), &good)), RuleError::InvalidParameter);
}

#[test]
fn file_languages_follow_extensions_and_the_source_analysis() {
    let langs = |v: &[&str]| v.iter().map(|s| s.to_string()).collect::<Vec<_>>();
    assert!(matches_file_language("src/a.h", &langs(&["c"])));
    assert!(matches_file_language("src/a.hpp", &langs(&["cpp"])));
    assert!(!matches_file_language("src/a.hpp", &langs(&["c"])));
    assert!(matches_file_language("src/A.java", &langs(&["java"])));
    assert!(matches_file_language("anything", &langs(&[])));
    assert!(!matches_file_language("src/A.java", &langs(&["python"])));
    assert_eq!(file_pattern_guidance("no-print").1, "Use a logger for production diagnostics or narrow this rule's paths");
    assert_eq!(file_pattern_guidance("custom").0, "Added file contains a forbidden source pattern");
}

#[test]
fn line_endings_commit_subjects_and_diff_size_are_checked() {
    let crlf = snapshot("a.txt", Some("one\ntwo\n"), b"one\r\ntwo\r\n", vec![1, 2]);
    let (matched, diagnostics) = completed(evaluate("line-ending", &setting("{}"), &crlf));
    assert_eq!(matched, 1);
    assert_eq!(diagnostics[0].message, "Line endings changed from lf to crlf");
    assert!(diagnostics[0].id.starts_with("line-ending:"));
    assert_eq!(diagnostics[0].fingerprint.len(), 71);
    let mut commits = crlf.clone();
    commits.commits = vec![
        ("a1".into(), "[ABC-1]fix: repair parser\n\nbody".into()),
        ("b2".into(), "repair parser".into()),
    ];
    let (matched, diagnostics) = completed(evaluate("commit-message", &setting("{}"), &commits));
    assert_eq!((matched, diagnostics.len()), (2, 1));
    assert!(matches!(evaluate("commit-message", &setting("{}"), &crlf), RuleOutcome::Skipped { .. }));
    let (matched, diagnostics) = completed(evaluate("diff-size", &setting(r#"{"max_added_lines":1}"#), &crlf));
    assert_eq!((matched, diagnostics.len()), (2, 1));
    assert_eq!(diagnostics[0].message, "Change adds 2 lines; limit is 1");
    assert_eq!(blocked(evaluate("diff-size", &setting(r#"{"max_added_lines":0}"#), &crlf)), RuleError::InvalidLimit);
    assert_eq!(blocked(evaluate("unknown", &setting("{}"), &crlf)), RuleError::UnknownRule);
}

#[test]
fn source_patterns_only_report_added_source_lines() {
    let source = "fn retained() { unsafe { retained(); } }\nfn added() { unsafe { added(); } }\n";
    let options = setting(r#"{"prohibited_patterns":{"rust":["\\bunsafe\\s*\\{"]}}"#);
    let changed = snapshot("src/lib.rs", Some(source), source.as_bytes(), vec![2]);
    let (matched, diagnostics) = completed(evaluate_as("security-sensitive-api", "source-pattern", &options, &changed));
    assert_eq!(matched, 1);
    assert_eq!(diagnostics.len(), 1);
    assert_eq!(diagnostics[0].range.unwrap().start_line, 2);
}

#[test]
fn source_pattern_configuration_gaps_remain_incomplete() {
    let options = setting(r#"{"prohibited_patterns":{}}"#);
    let changed = snapshot("src/lib.rs", Some(""), b"fn added() {}\n", vec![1]);
    assert_eq!(
        blocked(evaluate_as("security-sensitive-api", "source-pattern", &options, &changed)),
        RuleError::InvalidParameter
    );
}

#[test]
fn source_pattern_diagnostics_name_the_language_and_quote_the_pattern() {
    let options = setting(r#"{"prohibited_patterns":{"all":["TODO"],"python":["TODO","eval\\("]}}"#);
    let changed = snapshot("app/main.py", None, b"x = eval(s)  # TODO\nprint(x)\n", vec![1, 2]);
    let (matched, diagnostics) = completed(evaluate_as("review-markers", "source-pattern", &options, &changed));
    assert_eq!(matched, 2);
    assert_eq!(diagnostics.len(), 2);
    assert_eq!(diagnostics[0].message, "Changed source line matches configured review pattern \"TODO\"");
    assert_eq!(diagnostics[1].message, "Changed source line matches configured review pattern \"eval\\\\(\"");
    assert!(matches!(&diagnostics[0].evidence[0], (k, Evidence::Text(v)) if k == "language" && v == "python"));
    assert!(matches!(&diagnostics[1].evidence[1], (k, Evidence::Text(v)) if k == "pattern" && v == "eval\\("));
}

#[test]
fn source_pattern_refusals_name_their_cause() {
    let changed = snapshot("src/lib.rs", None, b"fn added() {}\n", vec![1]);
    let cases = [
        (r#"{}"#, RuleError::MissingParameter),
        (r#"{"prohibited_patterns":["x"]}"#, RuleError::InvalidParameter),
        (r#"{"prohibited_patterns":{"cobol":["x"]}}"#, RuleError::UnsupportedLanguage),
        (r#"{"prohibited_patterns":{"rust":["x","x"]}}"#, RuleError::InvalidParameter),
        (r#"{"prohibited_patterns":{"rust":[""]}}"#, RuleError::InvalidParameter),
        (r#"{"prohibited_patterns":{"rust":["("]}}"#, RuleError::InvalidPattern),
        (r#"{"prohibited_patterns":{"rust":["x"]},"paths":["["]}"#, RuleError::InvalidGlob),
        (r#"{"prohibited_patterns":{"rust":["x"]},"languages":"rust"}"#, RuleError::InvalidParameter),
    ];
    for (parameters, error) in cases {
        assert_eq!(blocked(evaluate_as("markers", "source-pattern", &setting(parameters), &changed)), error);
    }
    let long = format!(r#"{{"prohibited_patterns":{{"rust":["{}"]}}}}"#, "a".repeat(513));
    assert_eq!(blocked(evaluate_as("markers", "source-pattern", &setting(&long), &changed)), RuleError::InvalidParameter);
    let filtered = setting(r#"{"prohibited_patterns":{"rust":["fn"]},"languages":["go"]}"#);
    let (matched, diagnostics) = completed(evaluate_as("markers", "source-pattern", &filtered, &changed));
    assert_eq!((matched, diagnostics.len()), (0, 0));
    let unreadable = snapshot("src/lib.rs", None, &[0xff], vec![1]);
    let options = setting(r#"{"prohibited_patterns":{"rust":["fn"]}}"#);
    assert_eq!(blocked(evaluate_as("markers", "source-pattern", &options, &unreadable)), RuleError::NotUtf8);
}

#[test]
fn shell_scripts_added_without_an_interpreter_directive_are_reported() {
    let options = setting(r#"{}"#);
    let missing = snapshot("bin/run.sh", None, b"echo hi\n", vec![1]);
    let (matched, diagnostics) = completed(evaluate_as("shell-shebang", "shell-shebang", &options, &missing));
    assert_eq!((matched, diagnostics.len()), (1, 1));
    assert_eq!(diagnostics[0].message, "Added Shell script has no first-line interpreter directive");
    assert_eq!(diagnostics[0].range.unwrap().start_line, 1);
    let present = snapshot("bin/run.sh", None, b"#!/bin/sh\necho hi\n", vec![1, 2]);
    assert_eq!(completed(evaluate_as("shell-shebang", "shell-shebang", &options, &present)).1.len(), 0);
    let untouched = snapshot("bin/run.sh", Some("echo hi\n"), b"echo hi\necho more\n", vec![2]);
    assert_eq!(completed(evaluate_as("shell-shebang", "shell-shebang", &options, &untouched)).1.len(), 0);
    let not_shell = snapshot("bin/run.py", None, b"print(1)\n", vec![1]);
    assert_eq!(completed(evaluate_as("shell-shebang", "shell-shebang", &options, &not_shell)).0, 0);
    let unreadable = snapshot("bin/run.sh", None, &[0xff], vec![1]);
    assert_eq!(blocked(evaluate_as("shell-shebang", "shell-shebang", &options, &unreadable)), RuleError::NotUtf8);
    let bad_glob = setting(r#"{"paths":["["]}"#);
    assert_eq!(blocked(evaluate_as("shell-shebang", "shell-shebang", &bad_glob, &missing)), RuleError::InvalidGlob);
    let elsewhere = setting(r#"{"paths":["scripts/**"]}"#);
    assert_eq!(completed(evaluate_as("shell-shebang", "shell-shebang", &elsewhere, &missing)).0, 0);
}

#[test]
fn three_consecutive_code_like_comments_touching_added_lines_are_reported() {
    let options = setting(r#"{}"#);
    let source = b"#!/bin/sh\n# if [ -x foo ]; then\n# export X=1\n#   name=value\necho done\n# return 1\n";
    let changed = snapshot("bin/run.sh", Some("#!/bin/sh\n"), source, vec![3]);
    let (matched, diagnostics) = completed(evaluate_as("shell-commented-code", "shell-commented-code", &options, &changed));
    assert_eq!((matched, diagnostics.len()), (1, 1));
    let range = diagnostics[0].range.unwrap();
    assert_eq!((range.start_line, range.end_line), (2, 4));
    assert!(matches!(&diagnostics[0].evidence[1], (k, Evidence::Count(3)) if k == "lines"));
    let outside = snapshot("bin/run.sh", Some("#!/bin/sh\n"), source, vec![5, 6]);
    assert_eq!(completed(evaluate_as("shell-commented-code", "shell-commented-code", &options, &outside)).1.len(), 0);
    let short = snapshot("bin/run.sh", None, b"# if x\n# fi=1\necho\n", vec![1, 2, 3]);
    assert_eq!(completed(evaluate_as("shell-commented-code", "shell-commented-code", &options, &short)).1.len(), 0);
    let prose = snapshot("bin/run.sh", None, b"# This script\n# prepares the\n# release build\n", vec![1, 2, 3]);
    assert_eq!(completed(evaluate_as("shell-commented-code", "shell-commented-code", &options, &prose)).1.len(), 0);
    let trailing = snapshot("bin/run.sh", None, b"# local a\n# exit 0\n# b = 2\n", vec![1]);
    let (_, diagnostics) = completed(evaluate_as("shell-commented-code", "shell-commented-code", &options, &trailing));
    assert_eq!(diagnostics.len(), 1);
    let range = diagnostics[0].range.unwrap();
    assert_eq!((range.start_line, range.end_line), (1, 3));
}
