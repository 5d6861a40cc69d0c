use qualitygate::reports::sarif::SarifError;
use qualitygate::reports::{parse, Data, ParseError, ReportFormat};
use serde_json::Value;
use std::path::Path;

fn value(text: &str) -> Value {
    serde_json::from_str(text).unwrap()
}

fn text(s: &str) -> Value {
    Value::String(s.to_string())
}

fn report(results: Value) -> Value {
    let mut document = value(
        r#"{"version":"2.1.0","runs":[{
        "tool":{"driver":{"name":"fixture","semanticVersion":"1.0.0","rules":[{"id":"R","messageStrings":{"message":{"text":"Replace {0} with {{safe}}"}}}]}},
        "invocations":[{"executionSuccessful":true}], "results":null
    }]}"#,
    );
    document["runs"][0]["results"] = results;
    document
}

fn issue() -> Value {
    value(
        r#"{"ruleId":"R","message":{"text":"A violation"},
        "locations":[{"physicalLocation":{"artifactLocation":{"uri":"src/a%20b.rs"},"region":{"startLine":2,"endLine":4}}}]}"#,
    )
}

fn parse_value(document: &Value) -> Result<Data, ParseError> {
    parse(ReportFormat::Sarif, &serde_json::to_vec(document).unwrap())
}

#[test]
fn successful_runs_resolve_rule_messages_file_tables_and_uri_bases() {
    let mut issue = issue();
    issue.as_object_mut().unwrap().remove("ruleId");
    issue["rule"] = value(r#"{"index":0}"#);
    issue["message"] = value(r#"{"id":"message","arguments":["old"]}"#);
    issue["locations"][0]["physicalLocation"]["artifactLocation"] = value(r#"{"index":0}"#);
    issue["locations"][0]["logicalLocations"] = value(r#"[{"index":0}]"#);
    let mut document = report(Value::Array(vec![issue]));
    let run = &mut document["runs"][0];
    run["artifacts"] = value(r#"[{"location":{"uri":"a%20b.rs","uriBaseId":"SRC"}}]"#);
    run["originalUriBaseIds"] = value(r#"{"ROOT":{"uri":"source/"},"SRC":{"uri":"src/","uriBaseId":"ROOT"}}"#);
    run["logicalLocations"] = value(r#"[{"fullyQualifiedName":"module::function"}]"#);
    let data = parse_value(&document).unwrap();
    let issue = &data.issues[0];
    assert_eq!(issue.file.as_deref(), Some("source/src/a b.rs"));
    assert_eq!(issue.message, "Replace old with {safe}");
    assert_eq!(issue.symbol.as_deref(), Some("module::function"));
    assert_eq!(issue.locations[0].end_line, Some(4));
    assert_eq!(data.sarif_runs[0].tool, "fixture");
    assert_eq!(data.sarif_runs[0].version.as_deref(), Some("1.0.0"));
    let root = Path::new("/tmp/qualitygate-sarif-root");
    let uri = url::Url::from_directory_path(root).unwrap();
    document["runs"][0]["originalUriBaseIds"]["ROOT"]["uri"] = text(uri.as_str());
    let data = parse_value(&document).unwrap();
    assert_eq!(Path::new(data.issues[0].file.as_ref().unwrap()), root.join("src/a b.rs"));
}

#[test]
fn malformed_invocations_external_results_and_unresolved_analysis_are_incomplete() {
    for (key, replacement) in [
        ("invocations", value("{}")),
        ("invocations", value("[{}]")),
        ("invocations", value(r#"[{"executionSuccessful":false}]"#)),
        ("invocations", value(r#"[{"executionSuccessful":"true"}]"#)),
        ("invocations", value(r#"[{"executionSuccessful":true,"toolExecutionNotifications":[{"level":"error"}]}]"#)),
        ("invocations", value(r#"[{"executionSuccessful":true,"toolConfigurationNotifications":[{"exception":{}}]}]"#)),
        ("invocations", value(r#"[{"executionSuccessful":true,"toolExecutionNotifications":[{"level":"invalid"}]}]"#)),
        ("externalPropertyFileReferences", value(r#"{"results":[{"location":{"uri":"more.sarif"}}]}"#)),
        ("results", Value::Null),
        ("results", value("{}")),
        ("tool", value(r#"{"driver":{}}"#)),
        ("baselineGuid", text("previous")),
    ] {
        let mut document = report(value("[]"));
        document["runs"][0][key] = replacement;
        assert!(parse_value(&document).is_err(), "{key}");
    }
    for kind in ["open", "review", "unknown"] {
        let mut finding = issue();
        finding["kind"] = text(kind);
        assert!(parse_value(&report(Value::Array(vec![finding]))).is_err());
    }
    let mut document = report(value("[]"));
    document["inlineExternalProperties"] = value("[{}]");
    assert!(parse_value(&document).is_err());
    document = report(value("[]"));
    document["runs"][0].as_object_mut().unwrap().remove("results");
    assert!(parse_value(&document).is_err());
    for bad in [
        value("null"),
        value("[]"),
        value(r#"{"version":"1.0.0"}"#),
        value(r#"{"version":"2.1.0","runs":[]}"#),
    ] {
        assert!(parse_value(&bad).is_err());
    }
    let mut document = report(value("[]"));
    document["runs"][0]["invocations"] =
        value(r#"[{"executionSuccessful":true,"toolExecutionNotifications":[{"level":"warning"}]}]"#);
    assert!(parse_value(&document).is_ok());
    document["runs"][0].as_object_mut().unwrap().remove("invocations");
    assert!(parse_value(&document).is_ok());
}

#[test]
fn non_violations_are_counted_and_suppressions_do_not_silently_waive_policy() {
    let mut results = vec![issue()];
    for kind in ["pass", "informational", "notApplicable"] {
        let mut finding = issue();
        finding["kind"] = text(kind);
        finding["level"] = text("none");
        results.push(finding);
    }
    results[0]["suppressions"] = value(r#"[{"kind":"inSource","status":"accepted"}]"#);
    let data = parse_value(&report(Value::Array(results))).unwrap();
    assert_eq!(data.issues.len(), 1);
    assert_eq!(data.sarif_runs[0].non_violations, 3);
    assert_eq!(data.sarif_runs[0].suppressed_results, 1);
    for (key, replacement) in [
        ("level", text("unknown")),
        ("kind", value("false")),
        ("baselineState", text("absent")),
        ("suppressions", value(r#"[{"kind":"unknown"}]"#)),
        ("suppressions", value(r#"[{"kind":"external","status":"unknown"}]"#)),
    ] {
        let mut finding = issue();
        finding[key] = replacement;
        assert!(parse_value(&report(Value::Array(vec![finding]))).is_err());
    }
    let mut finding = issue();
    finding["kind"] = text("pass");
    finding["level"] = text("error");
    assert!(parse_value(&report(Value::Array(vec![finding]))).is_err());
}

#[test]
fn indices_cycles_foreign_uris_and_inconsistent_coordinates_are_rejected() {
    for location in [
        value(r#"{"index":3}"#),
        value(r#"{"index":-2}"#),
        value(r#"{"index":"0"}"#),
        value("{}"),
        value(r#"{"uri":"src/a.rs","uriBaseId":"MISSING"}"#),
        value(r#"{"uri":"https://example.invalid/source.rs"}"#),
        value(r#"{"uri":"file://remote/source.rs"}"#),
        value(r#"{"uri":"src/a.rs#part"}"#),
        value(r#"{"uri":"src/a.rs?version=1"}"#),
        value(r#"{"uri":"../escape.rs"}"#),
        value(r#"{"uri":"src/a%ZZ.rs"}"#),
        value(r#"{"uri":"src/a%.rs"}"#),
        value(r#"{"uri":"src/%FF.rs"}"#),
        value(r#"{"uri":"src/%00.rs"}"#),
        value(r#"{"uri":"src/a%5Cb.rs"}"#),
        value(r#"{"uri":"src\\a.rs"}"#),
        value(r#"{"uri":"src/a\tb.rs"}"#),
        value(r#"{"uri":"src/a.rs "}"#),
        value(r#"{"uri":" src/a.rs"}"#),
    ] {
        let mut finding = issue();
        finding["locations"][0]["physicalLocation"]["artifactLocation"] = location.clone();
        assert!(parse_value(&report(Value::Array(vec![finding]))).is_err(), "{location}");
    }
    let mut document = report(Value::Array(vec![issue()]));
    document["runs"][0]["results"][0]["locations"][0]["physicalLocation"]["artifactLocation"] =
        value(r#"{"uri":"a.rs","uriBaseId":"ROOT"}"#);
    document["runs"][0]["originalUriBaseIds"] = value(r#"{"ROOT":{"uri":"src/","uriBaseId":"ROOT"}}"#);
    assert!(parse_value(&document).is_err());
    for region in [
        value(r#"{"startLine":0}"#),
        value(r#"{"startLine":"2"}"#),
        value(r#"{"startLine":4,"endLine":2}"#),
        value(r#"{"endLine":4}"#),
    ] {
        let mut finding = issue();
        finding["locations"][0]["physicalLocation"]["region"] = region;
        assert!(parse_value(&report(Value::Array(vec![finding]))).is_err());
    }
    let mut document = report(Value::Array(vec![issue()]));
    document["runs"][0]["artifacts"] = value(r#"[{"location":{"uri":"different.rs"}}]"#);
    document["runs"][0]["results"][0]["locations"][0]["physicalLocation"]["artifactLocation"]["index"] = value("0");
    assert!(parse_value(&document).is_err());
    document["runs"][0]["artifacts"] = value(r#"[{"location":{"index":0}}]"#);
    assert!(parse_value(&document).is_err());
}

#[test]
fn rule_and_logical_identity_references_cannot_disagree() {
    for references in [
        value(r#"{"ruleId":"different","ruleIndex":0}"#),
        value(r#"{"ruleId":"R","rule":{"id":"different"}}"#),
        value(r#"{"ruleIndex":0,"rule":{"index":1}}"#),
        value(r#"{"ruleIndex":8}"#),
        value(r#"{"rule":{"index":0,"toolComponent":{"index":0}}}"#),
    ] {
        let mut finding = issue();
        for (key, member) in references.as_object().unwrap() {
            finding[key] = member.clone();
        }
        assert!(parse_value(&report(Value::Array(vec![finding]))).is_err());
    }
    let mut document = report(Value::Array(vec![issue()]));
    document["runs"][0]["logicalLocations"] = value(r#"[{"fullyQualifiedName":"actual"}]"#);
    document["runs"][0]["results"][0]["locations"][0]["logicalLocations"] =
        value(r#"[{"index":0,"fullyQualifiedName":"other"}]"#);
    assert!(parse_value(&document).is_err());
    document["runs"][0]["logicalLocations"] = value(r#"[{"index":0}]"#);
    assert!(parse_value(&document).is_err());
    let mut document = report(Value::Array(vec![issue()]));
    document["runs"][0]["tool"]["driver"]["rules"] = value(r#"[{"id":"R"},{"id":"R"}]"#);
    assert!(parse_value(&document).is_err());
}

#[test]
fn message_catalogs_and_expansion_are_bounded_and_not_silently_replaced() {
    let mut finding = issue();
    finding["message"] = value(r#"{"id":"global","arguments":["value"]}"#);
    let mut document = report(Value::Array(vec![finding]));
    document["runs"][0]["tool"]["driver"]["globalMessageStrings"] =
        value(r#"{"global":{"text":"Use {0}","markdown":"Use **{0}**"}}"#);
    assert_eq!(parse_value(&document).unwrap().issues[0].message, "Use value");
    for message in [
        value("{}"),
        value(r#"{"id":"missing"}"#),
        value(r#"{"text":"{0}"}"#),
        value(r#"{"text":"{oops}"}"#),
        value(r#"{"text":"}"}"#),
        value(r#"{"text":""}"#),
        value(r#"{"markdown":"Missing required plain text"}"#),
        value(r#"{"text":"{0}","arguments":[false]}"#),
    ] {
        let mut finding = issue();
        finding["message"] = message;
        assert!(parse_value(&report(Value::Array(vec![finding]))).is_err());
    }
    let mut finding = issue();
    finding["message"] = value(r#"{"text":null,"arguments":[null]}"#);
    finding["message"]["text"] = text(&"{0}".repeat(3000));
    finding["message"]["arguments"][0] = text(&"x".repeat(1024));
    assert!(parse_value(&report(Value::Array(vec![finding]))).is_err());
    let mut finding = issue();
    finding["locations"] = Value::Array(vec![finding["locations"][0].clone(); 257]);
    assert!(parse_value(&report(Value::Array(vec![finding]))).is_err());
}

fn library_json(v: &Value) -> qualitygate::json::Json {
    qualitygate::json::parse_json(&serde_json::to_string(v).unwrap()).unwrap()
}

#[test]
fn location_resolution_budget_bounds_shared_references_and_expanded_paths() {
    let finding = issue();
    let document = report(Value::Array(vec![finding.clone()]));
    let run = library_json(&document["runs"][0]);
    let result = library_json(&finding);
    assert!(qualitygate::reports::sarif_locations::locations(&run, &result, &mut 0, &mut Vec::new()).is_err());
    let mut finding = finding;
    finding["locations"][0]["physicalLocation"]["artifactLocation"] = value(r#"{"uri":null}"#);
    finding["locations"][0]["physicalLocation"]["artifactLocation"]["uri"] = text(&"a".repeat(16 * 1024 + 1));
    assert!(parse_value(&report(Value::Array(vec![finding.clone()]))).is_err());
    finding["locations"][0]["physicalLocation"]["artifactLocation"] = value(r#"{"uri":null,"uriBaseId":"ROOT"}"#);
    finding["locations"][0]["physicalLocation"]["artifactLocation"]["uri"] = text(&"a".repeat(8000));
    let mut document = report(Value::Array(vec![finding]));
    document["runs"][0]["originalUriBaseIds"] = value(r#"{"ROOT":{"uri":null}}"#);
    document["runs"][0]["originalUriBaseIds"]["ROOT"]["uri"] = text(&format!("{}/", "b".repeat(9000)));
    assert!(parse_value(&document).is_err());
    let mut finding = issue();
    finding["locations"][0]["logicalLocations"] =
        value(r#"[{"fullyQualifiedName":"A | B"},{"fullyQualifiedName":"C"}]"#);
    let first = parse_value(&report(Value::Array(vec![finding.clone()]))).unwrap().issues.remove(0);
    finding["locations"][0]["logicalLocations"] =
        value(r#"[{"fullyQualifiedName":"A"},{"fullyQualifiedName":"B | C"}]"#);
    let second = parse_value(&report(Value::Array(vec![finding]))).unwrap().issues.remove(0);
    assert_ne!(first.symbol, second.symbol);
    let mut finding = issue();
    finding["locations"][0]["physicalLocation"]["address"] = value(r#"{"absoluteAddress":42}"#);
    assert!(parse_value(&report(Value::Array(vec![finding]))).is_err());
    let mut finding = issue();
    finding["locations"] = value("[{}]");
    assert!(parse_value(&report(Value::Array(vec![finding]))).is_err());
}

#[test]
fn cumulative_expansion_and_resolution_limits_apply_to_the_whole_document() {
    let mut finding = issue();
    finding["message"] = value(r#"{"text":null,"arguments":[null]}"#);
    finding["message"]["text"] = text(&"{0}".repeat(1800));
    finding["message"]["arguments"][0] = text(&"x".repeat(1024));
    assert!(parse_value(&report(Value::Array(vec![finding.clone()]))).is_ok());
    let expanded = report(Value::Array(vec![finding; 10]));
    assert!(matches!(
        parse_value(&expanded).unwrap_err(),
        ParseError::Sarif(SarifError::ExpandedTooLarge)
    ));
    let mut finding = issue();
    finding["locations"][0]["logicalLocations"] = Value::Array(vec![value(r#"{"index":0}"#); 32]);
    let mut document = report(Value::Array(vec![finding; 210]));
    let mut chain: Vec<Value> = (1..32).map(|index| value(&format!(r#"{{"index":{index}}}"#))).collect();
    chain.push(value(r#"{"fullyQualifiedName":"fn"}"#));
    document["runs"][0]["logicalLocations"] = Value::Array(chain);
    assert!(matches!(
        parse_value(&document).unwrap_err(),
        ParseError::Sarif(SarifError::WorkExhausted)
    ));
}

#[test]
fn repeated_producer_and_rule_names_count_towards_expanded_evidence_budget() {
    let mut document = report(Value::Array(vec![issue(); 20]));
    document["runs"][0]["tool"]["driver"]["name"] = text(&"scan".repeat(300_000));
    assert!(matches!(
        parse_value(&document).unwrap_err(),
        ParseError::Sarif(SarifError::ExpandedTooLarge)
    ));
    let mut finding = issue();
    finding.as_object_mut().unwrap().remove("ruleId");
    finding["ruleIndex"] = value("0");
    let mut document = report(Value::Array(vec![finding; 20]));
    document["runs"][0]["tool"]["driver"]["rules"] = value(r#"[{"id":null}]"#);
    document["runs"][0]["tool"]["driver"]["rules"][0]["id"] = text(&"rule".repeat(300_000));
    assert!(matches!(
        parse_value(&document).unwrap_err(),
        ParseError::Sarif(SarifError::ExpandedTooLarge)
    ));
}
