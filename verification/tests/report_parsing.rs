use qualitygate::reports::coverage_xml::CoverageError;
use qualitygate::reports::lcov::LcovError;
use qualitygate::reports::xml_report::XmlReportError;
use qualitygate::reports::{coverage_budget, parse, ParseError, ReportError, ReportFormat};
use qualitygate::reports::test_cases::{self, TestCaseError, TestOutcome};
use qualitygate::reports::MAX_REPORT_BYTES;
use qualitygate::paths::PathError;
use qualitygate::provenance::File;
use qualitygate::rules::Snapshot;

#[test]
fn junit_counts_executed_tests_instead_of_skipped_and_surfaces_assertions() {
    let data = parse(ReportFormat::Junit, br#"<testsuite tests="3"><testcase name="ok"/><testcase name="skip"><skipped/></testcase><testcase name="bad"><failure message="assertion failed"/></testcase></testsuite>"#).unwrap();
    let tests = data.tests.unwrap();
    assert_eq!((tests.executed, tests.skipped, tests.failures), (2, 1, 1));
    assert_eq!(data.issues[0].message, "assertion failed");
    assert!(parse(ReportFormat::Junit, br#"<testsuite tests="1"/>"#).is_err());
    assert_eq!(
        parse(ReportFormat::Junit, b"<testsuite/>")
            .unwrap()
            .tests
            .unwrap()
            .executed,
        0
    );
}

#[test]
fn static_xml_formats_keep_real_locations_and_reject_analyzer_errors() {
    let checkstyle = parse(ReportFormat::Checkstyle, br#"<checkstyle><file name="src/A.java"><error line="12" source="Naming" message="bad name"/></file></checkstyle>"#).unwrap();
    assert_eq!(checkstyle.issues[0].line, Some(12));
    let pmd = parse(ReportFormat::Pmd, br#"<pmd><file name="A.java"><violation beginline="3" rule="Unused"> unused </violation></file></pmd>"#).unwrap();
    assert_eq!(pmd.issues[0].message, "unused");
    assert!(parse(ReportFormat::Pmd, b"<pmd><error/></pmd>").is_err());
    let bugs = parse(ReportFormat::Spotbugs, br#"<BugCollection><BugInstance type="NP_NULL"><LongMessage>null access</LongMessage><SourceLine sourcepath="A.java" start="5"/></BugInstance></BugCollection>"#).unwrap();
    assert_eq!(bugs.issues[0].line, Some(5));
    assert!(parse(ReportFormat::Spotbugs, b"<BugCollection><Error/></BugCollection>").is_err());
}

#[test]
fn coverage_parsers_preserve_uncovered_lines_and_branches() {
    let lcov = parse(
        ReportFormat::Lcov,
        b"SF:src/lib.rs\nDA:1,0\nDA:2,3\nBRDA:2,0,0,2\nBRDA:2,0,1,-\nend_of_record\n",
    )
    .unwrap();
    assert_eq!(lcov.coverage[0].hits, 0);
    assert_eq!((lcov.coverage[1].branches_hit, lcov.coverage[1].branches_found), (1, 2));
    let counters = r#"<counter type="INSTRUCTION" missed="1" covered="2"/><counter type="LINE" missed="0" covered="1"/><counter type="BRANCH" missed="1" covered="1"/>"#;
    let jacoco = parse(ReportFormat::Jacoco, format!(r#"<report><package name="com/acme"><sourcefile name="A.java"><line nr="2" mi="1" ci="2" mb="1" cb="1"/>{counters}</sourcefile>{counters}</package>{counters}</report>"#).as_bytes()).unwrap();
    assert_eq!(jacoco.coverage[0].file, "com/acme/A.java");
    let cobertura = parse(ReportFormat::Cobertura, br#"<coverage><class filename="x.py"><lines><line number="3" hits="1" branch="true" condition-coverage="50% (1/2)"/></lines></class></coverage>"#).unwrap();
    assert_eq!(cobertura.coverage[0].branches_hit, 1);
    assert!(parse(ReportFormat::Lcov, b"SF:file\nDA:1,1").is_err());
}

#[test]
fn sarif_and_generic_diagnostics_validate_shape() {
    let sarif = parse(ReportFormat::Sarif, br#"{"version":"2.1.0","runs":[{"tool":{"driver":{"name":"fixture"}},"results":[{"ruleId":"r","message":{"text":"bad"},"locations":[{"physicalLocation":{"artifactLocation":{"uri":"src/x.rs"},"region":{"startLine":5}}}]}]}]}"#).unwrap();
    assert_eq!(sarif.issues[0].file.as_deref(), Some("src/x.rs"));
    assert!(parse(ReportFormat::Sarif, br#"{"version":"2.1.0","runs":[]}"#).is_err());
    assert!(parse(ReportFormat::Diagnostics, b"{}").is_err());
    assert!(parse(ReportFormat::Diagnostics, br#"{"issues":[],"extra":true}"#).is_err());
    assert!(parse(ReportFormat::Diagnostics, br#"{"issues":[]}"#).is_ok());
    assert!(parse(ReportFormat::Checkstyle, b"<wrong/>").is_err());
    assert!(parse(ReportFormat::Checkstyle, b"<!DOCTYPE checkstyle><checkstyle/>").is_err());
    assert!(parse(ReportFormat::Junit, b" ").is_err());
}

#[test]
fn lcov_sections_merge_by_identity_and_validate_source_summaries() {
    let first = "SF:src/a.rs\nDA:1,1\nBRDA:1,0,0,1\nBRDA:1,0,1,-\nLF:1\nLH:1\nBRF:2\nBRH:1\nend_of_record\n";
    let second = first
        .replace("BRDA:1,0,0,1", "BRDA:1,0,0,-")
        .replace("BRDA:1,0,1,-", "BRDA:1,0,1,1");
    let merged = parse(
        ReportFormat::Lcov,
        format!("TN:first\n{first}TN:second\n{second}").as_bytes(),
    )
    .unwrap();
    assert_eq!(merged.coverage.len(), 1);
    assert_eq!(merged.coverage[0].branches_found, 2);
    assert_eq!(merged.coverage[0].branches_hit, 2);
    assert!(merged.branch_coverage);
    for broken in [
        first.replace("LF:1", "LF:2"),
        first.replace("BRF:2", "BRF:3"),
        first.replace("DA:1,1", "DA:1,1\nDA:1,1"),
        first.replace("BRDA:1,0,1,-", "BRDA:1,0,0,1"),
        first.replace("DA:1,1", "DA:2,1"),
        "end_of_record\n".into(),
        "DA:1,1\n".into(),
        "SF:src/a.rs\nend_of_record\n".into(),
    ] {
        assert!(parse(ReportFormat::Lcov, broken.as_bytes()).is_err(), "{broken}");
    }
    let empty = parse(
        ReportFormat::Lcov,
        b"SF:src/empty.rs\nLF:0\nLH:0\nBRF:0\nBRH:0\nend_of_record\n",
    )
    .unwrap();
    assert!(empty.coverage.is_empty());
    assert_eq!(empty.coverage_files, ["src/empty.rs"]);
    assert!(!empty.branch_coverage);
}

#[test]
fn coverage_and_test_summary_counters_cannot_disagree_with_detail_records() {
    let xml = br#"<coverage lines-valid="2" lines-covered="1" branches-valid="0" branches-covered="0"><class filename="a.py"><lines><line number="1" hits="1"/></lines></class></coverage>"#;
    assert!(parse(ReportFormat::Cobertura, xml).is_err());
    assert!(parse(
        ReportFormat::Diagnostics,
        br#"{"issues":[],"tests":{"executed":0,"failures":1,"skipped":0}}"#
    )
    .is_err());
    assert!(parse(ReportFormat::Diagnostics, br#"{"issues":[],"coverage":[{"file":"a.rs","line":0,"hits":0,"branches_found":0,"branches_hit":0}]}"#).is_err());
}

fn value(text: &str) -> serde_json::Value {
    serde_json::from_str(text).unwrap()
}

#[test]
fn generic_location_inventory_preserves_ranges_and_cannot_contradict_primary_location() {
    let mut report = value(
        r#"{"issues":[{"rule":"R","message":"A violation","file":"src/a.rs","line":2,"symbol":"fn",
        "tool":"scan","locations":[{"file":"src/a.rs","line":2,"end_line":3,"symbol":"fn"}]}]}"#,
    );
    let read = |v: &serde_json::Value| parse(ReportFormat::Diagnostics, &serde_json::to_vec(v).unwrap());
    assert_eq!(read(&report).unwrap().issues[0].locations[0].end_line, Some(3));
    for (key, replacement) in [
        ("file", value(r#""different.rs""#)),
        ("line", value("1")),
        ("symbol", value(r#""different""#)),
    ] {
        let mut broken = report.clone();
        broken["issues"][0]["locations"][0][key] = replacement;
        assert!(read(&broken).is_err());
    }
    report["issues"][0]["locations"]
        .as_array_mut()
        .unwrap()
        .push(value(r#"{"file":"src/b.rs","line":0}"#));
    assert!(read(&report).is_err());
    report["issues"][0]["locations"][1] = value(r#"{"file":"src/b.rs","line":2,"end_line":1}"#);
    assert!(read(&report).is_err());
    report["issues"][0]["locations"][1] = value(r#"{"file":"src/b.rs","end_line":1}"#);
    assert!(read(&report).is_err());
}

#[test]
fn repeated_long_filenames_cannot_expand_normalized_coverage_without_bound() {
    let file = format!("{}.rs", "a".repeat(8000));
    let lcov = format!(
        "SF:{file}\n{}end_of_record\n",
        (1..1000).map(|line| format!("DA:{line},1\n")).collect::<String>()
    );
    let xml = format!(
        "<coverage><class filename='{file}'><lines>{}</lines></class></coverage>",
        (1..1000)
            .map(|line| format!("<line number='{line}' hits='1'/>"))
            .collect::<String>()
    );
    let java = format!(
        "<report><package name=''><sourcefile name='{file}'>{}</sourcefile></package></report>",
        (1..1000)
            .map(|line| format!("<line nr='{line}' ci='1'/>"))
            .collect::<String>()
    );
    for (format, input) in [
        (ReportFormat::Lcov, lcov),
        (ReportFormat::Cobertura, xml),
        (ReportFormat::Jacoco, java),
    ] {
        let error = parse(format, input.as_bytes()).unwrap_err();
        assert!(
            matches!(
                error,
                ParseError::Lcov(LcovError::Budget(ReportError::Budget))
                    | ParseError::Xml(XmlReportError::Coverage(CoverageError::Budget(
                        ReportError::Budget
                    )))
            ),
            "{error:?}"
        );
    }
    let mut budget = 1024;
    for invalid in ["", "a\nb", "a\0b"] {
        assert!(coverage_budget(&mut budget, invalid).is_err());
    }
    assert!(coverage_budget(&mut budget, &"a".repeat(16385)).is_err());
    let data = value(r#"{"issues":[],"coverage":[{"file":"a.py","line":1,"hits":1,"branches_found":0,"branches_hit":0,"excluded":true}]}"#);
    assert!(parse(ReportFormat::Diagnostics, &serde_json::to_vec(&data).unwrap()).is_err());
}

fn junit_snapshot() -> Snapshot {
    Snapshot {
        files: vec![(
            "tests/a.rs".into(),
            File { bytes: b"test\n".to_vec(), executable: false },
        )],
        base_files: vec![],
        changes: vec![],
        commits: vec![],
        content_digest: "digest".into(),
    }
}

#[test]
fn junit_case_evidence_rejects_ambiguous_shapes_without_changing_ordinary_junit() {
    let input = junit_snapshot();
    let workspace = "/fixture";
    let good = "<testsuite tests='1' failures='1' errors='0' skipped='0'><testcase file='tests/a.rs' classname='A' name='checks'><failure type='AssertionError'/></testcase></testsuite>";
    assert!(matches!(
        test_cases::parse(good.as_bytes(), &input, workspace).unwrap()[0].outcome,
        TestOutcome::Failure { .. }
    ));
    for bad in [
        "<other/>",
        "<testsuite><error/></testsuite>",
        "<testsuite><testcase name='a'/></testsuite>",
        "<testsuite><testcase file='absent' name='a'/></testsuite>",
        "<testsuite><testcase file='../outside' name='a'/></testsuite>",
        "<testsuite><testcase file='tests/a.rs'/></testsuite>",
        "<testsuite><testcase file='tests/a.rs' name='a'><failure/><skipped/></testcase></testsuite>",
        "<testsuite><testcase file='tests/a.rs' name='a'><skipped/><skipped/></testcase></testsuite>",
        "<testsuite><testcase file='tests/a.rs' name='a'><testcase file='tests/a.rs' name='b'/></testcase></testsuite>",
        "<testsuite tests='1'><testsuite tests='2'><testcase file='tests/a.rs' name='a'/></testsuite></testsuite>",
        "<testsuite errors='no'/>",
    ] {
        assert!(test_cases::parse(bad.as_bytes(), &input, workspace).is_err(), "{bad}");
    }
    assert!(
        test_cases::parse(&vec![b'x'; MAX_REPORT_BYTES + 1], &input, workspace).is_err()
    );
    assert!(test_cases::parse(b"\xff", &input, workspace).is_err());
    let nested = format!("<testsuites tests='1' failures='1'>{good}</testsuites>");
    assert_eq!(
        test_cases::parse(nested.as_bytes(), &input, workspace).unwrap().len(),
        1
    );
    let ordinary = b"<testsuite><testcase name='ordinary'><error message='failed'/></testcase></testsuite>";
    assert_eq!(
        parse(ReportFormat::Junit, ordinary)
            .unwrap()
            .tests
            .unwrap()
            .failures,
        1
    );
    assert!(test_cases::parse(ordinary, &input, workspace).is_err());
    let missing_type = good.replace(" type='AssertionError'", "");
    assert!(
        matches!(&test_cases::parse(missing_type.as_bytes(), &input, workspace).unwrap()[0].outcome,
        TestOutcome::Failure { types } if types == &vec![String::new()])
    );
}

#[test]
fn junit_case_files_resolve_against_the_workspace() {
    let input = junit_snapshot();
    let case = |file: &str| format!("<testsuite><testcase file='{file}' name='a'/></testsuite>");
    let absolute = test_cases::parse(case("/fixture/tests/a.rs").as_bytes(), &input, "/fixture").unwrap();
    assert_eq!(absolute[0].file, "tests/a.rs");
    assert_eq!(absolute[0].classname, "");
    assert!(matches!(absolute[0].outcome, TestOutcome::Passed));
    let dotted = test_cases::parse(case("./tests//a.rs").as_bytes(), &input, "/fixture").unwrap();
    assert_eq!(dotted[0].file, "tests/a.rs");
    assert_eq!(
        test_cases::parse(case("/elsewhere/tests/a.rs").as_bytes(), &input, "/fixture").unwrap_err(),
        TestCaseError::Path(PathError::OutsideWorkspace)
    );
    assert_eq!(
        test_cases::parse(case("tests/../tests/a.rs").as_bytes(), &input, "/fixture").unwrap_err(),
        TestCaseError::Path(PathError::Escapes)
    );
    assert_eq!(
        test_cases::parse(b"<testsuite tests='2'><testcase file='tests/a.rs' name='a'/></testsuite>", &input, "/fixture").unwrap_err(),
        TestCaseError::CountMismatch
    );
    assert_eq!(
        test_cases::parse(b"<testsuite><testcase file='tests/a.rs' name='a'><error/><error/></testcase></testsuite>", &input, "/fixture").unwrap_err(),
        TestCaseError::ContradictoryOutcomes
    );
    let skipped = test_cases::parse(b"<testsuites><testsuite tests='1' skipped='1'><testcase file='tests/a.rs' name='a'><skipped/></testcase></testsuite></testsuites>", &input, "/fixture").unwrap();
    assert!(matches!(skipped[0].outcome, TestOutcome::Skipped));
}
