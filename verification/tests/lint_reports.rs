use qualitygate::reports::{cargo_clippy, eslint_json, golangci_json, ruff_json};

const LINT: &str = r#"{"reason":"compiler-message","message":{"level":"warning","code":{"code":"clippy::len_zero"},"message":"use is_empty","spans":[{"is_primary":true,"file_name":"src/lib.rs","line_start":1}]}}"#;

#[test]
fn parses_complete_lint_stream_and_rejects_missing_or_failed_build_evidence() {
    let parse = cargo_clippy::parse;
    let report = format!("{LINT}\n{{\"reason\":\"build-finished\",\"success\":true}}\n");
    let data = parse(&report).unwrap();
    assert_eq!(data.issues.len(), 1);
    assert_eq!(data.issues[0].rule, "clippy::len_zero");
    assert!(parse(LINT).is_err());
    assert!(parse("{\"reason\":\"build-finished\",\"success\":false}").is_err());
    assert!(parse(&format!("{report}not json\n")).is_err());
    assert!(parse(&format!("{LINT}\n{{\"reason\":\"build-finished\",\"success\":false}}")).is_err());
    let denied = LINT.replace("\"warning\"", "\"error\"");
    assert_eq!(
        parse(&format!("{denied}\n{{\"reason\":\"build-finished\",\"success\":false}}"))
            .unwrap()
            .issues
            .len(),
        1
    );
    assert!(parse(&format!("{denied}\n{{\"reason\":\"build-finished\",\"success\":true}}")).is_err());
    assert!(parse(&report.replace("clippy::len_zero", "unknown_lints")).is_err());
    let error = r#"{"reason":"compiler-message","message":{"level":"error","code":{"code":"E0425"},"message":"unknown name","spans":[]}}"#;
    assert!(parse(&format!("{error}\n{{\"reason\":\"build-finished\",\"success\":false}}")).is_err());
}

const ESLINT: &str = r#"[{"filePath":"src/app.js","errorCount":1,"warningCount":0,"fatalErrorCount":0,"messages":[{"ruleId":"no-eval","severity":2,"line":1,"message":"eval is unsafe"}]}]"#;

#[test]
fn parses_complete_eslint_results_and_rejects_fatal_or_inconsistent_reports() {
    let parse = eslint_json::parse;
    let data = parse(ESLINT).unwrap();
    assert_eq!(data.issues.len(), 1);
    assert_eq!(data.issues[0].rule, "no-eval");
    assert!(parse("[]").is_err());
    assert!(parse(&ESLINT.replace("\"errorCount\":1", "\"errorCount\":0")).is_err());
    assert!(parse(&ESLINT.replace("\"fatalErrorCount\":0", "\"fatalErrorCount\":1")).is_err());
    assert!(parse(&ESLINT.replace("\"ruleId\":\"no-eval\"", "\"ruleId\":null")).is_err());
    assert!(parse(&ESLINT.replace("\"line\":1", "\"line\":0")).is_err());
    assert!(parse(&format!("[{},{}]", &ESLINT[1..ESLINT.len() - 1], &ESLINT[1..ESLINT.len() - 1])).is_err());
}

const GOLANGCI: &str = r#"{"Issues":[{"FromLinter":"staticcheck","Text":"SA4006: value is never used","Pos":{"Filename":"src/main.go","Line":4}}],"Report":{"Linters":[{"Name":"staticcheck","Enabled":true},{"Name":"gosec"}]}}"#;

#[test]
fn parses_complete_linter_inventory_and_rejects_execution_errors() {
    let parse = golangci_json::parse;
    let data = parse(GOLANGCI).unwrap();
    assert_eq!(data.issues[0].rule, "SA4006");
    assert_eq!(data.issues[0].tool.as_deref(), Some("staticcheck"));
    assert!(parse(&GOLANGCI.replace("\"Line\":4", "\"Line\":0")).is_err());
    assert!(parse(&GOLANGCI.replace("\"Enabled\":true", "\"Enabled\":false")).is_err());
    assert!(parse(&GOLANGCI.replace("\"staticcheck\"", "\"typecheck\"")).is_err());
    assert!(parse(&GOLANGCI.replace("\"Linters\"", "\"Missing\"")).is_err());
    assert!(parse(&GOLANGCI.replace("\"Report\":{", "\"Report\":{\"Error\":\"failed\",")).is_err());
    assert!(parse(&GOLANGCI.replace("\"Report\":{", "\"Report\":{\"Warnings\":[{}],")).is_err());
    assert!(parse(r#"{"Issues":[],"Report":{"Linters":[{"Name":"staticcheck","Enabled":true}]}}"#).is_ok());
}

const RUFF: &str = r#"[{"code":"F401","message":"unused import","filename":"src/app.py","location":{"row":2,"column":1},"end_location":{"row":2,"column":7}}]"#;

#[test]
fn parses_ruff_findings_and_rejects_incomplete_locations_or_analysis() {
    let parse = ruff_json::parse;
    let data = parse(RUFF).unwrap();
    assert_eq!(data.issues[0].rule, "F401");
    assert_eq!(data.issues[0].tool.as_deref(), Some("ruff"));
    assert!(parse("[]").is_ok());
    assert!(parse(&RUFF.replace("\"F401\"", "\"invalid-syntax\"")).is_err());
    assert!(parse(&RUFF.replace("\"row\":2", "\"row\":0")).is_err());
    assert!(parse(&RUFF.replace("\"column\":1", "\"column\":0")).is_err());
    assert!(parse(&RUFF.replace("\"filename\":\"src/app.py\"", "\"filename\":null")).is_err());
    assert!(parse("{\"code\":\"F401\"}").is_err());
}
