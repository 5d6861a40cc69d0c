use qualitygate::json::parse_json;
use qualitygate::maven_usage::{DependencyFact, ProjectFacts};
use qualitygate::provenance::File;
use qualitygate::rules::{evaluate_with_projects, Diagnostic, Evidence, RuleError, RuleOutcome, RuleSetting, Snapshot};

fn dependency(artifact: &str) -> DependencyFact {
    DependencyFact {
        group: "g".into(),
        artifact: artifact.into(),
        version: "1".into(),
        artifact_type: "jar".into(),
        classifier: "".into(),
        scope: "compile".into(),
    }
}

fn project(root: &str) -> ProjectFacts {
    ProjectFacts {
        schema_version: 1,
        ecosystem: "maven".into(),
        root: root.into(),
        manifest: format!("{root}/pom.xml"),
        coordinate: format!("g:{root}:1"),
        source_root: format!("{root}/src/main/java"),
        test_source_root: format!("{root}/src/test/java"),
        declared: vec![],
        resolved: vec![],
        dependency_usage: None,
        producer_check: format!("facts-{root}"),
        snapshot_digest: "digest".into(),
    }
}

fn fixture() -> (Snapshot, Vec<ProjectFacts>) {
    let mut core = project("core");
    core.declared.push(dependency("infra"));
    core.resolved.extend([dependency("infra"), dependency("transport"), dependency("transport")]);
    let file = || File { bytes: b"<project/>".to_vec(), executable: false };
    let snapshot = Snapshot {
        files: vec![("core/pom.xml".into(), file()), ("infra/pom.xml".into(), file())],
        base_files: vec![],
        changes: vec![],
        commits: vec![],
        content_digest: "digest".into(),
    };
    (snapshot, vec![core, project("infra")])
}

const POLICY: &str = r#"{"modules":["core","infra"],"forbidden":[{"from":"g:core","to":"g:infra"}]}"#;

fn run(snapshot: &Snapshot, facts: &Vec<ProjectFacts>, policy: &str) -> RuleOutcome {
    let setting = RuleSetting { parameters: parse_json(policy).unwrap(), provenance_required: false };
    evaluate_with_projects("module-boundary", "module-boundary", &setting, snapshot, facts)
}

fn completed(outcome: RuleOutcome) -> (usize, Vec<Diagnostic>) {
    match outcome {
        RuleOutcome::Completed { matched_entities, diagnostics } => (matched_entities, diagnostics),
        other => panic!("not completed: {other:?}"),
    }
}

fn blocked(outcome: RuleOutcome) -> RuleError {
    match outcome {
        RuleOutcome::Blocked { error } => error,
        other => panic!("not blocked: {other:?}"),
    }
}

fn evidence<'a>(d: &'a Diagnostic, key: &str) -> &'a Evidence {
    &d.evidence.iter().find(|(k, _)| k == key).unwrap().1
}

#[test]
fn boundaries_enforce_direction_and_scope_even_without_source_changes() {
    let (snapshot, facts) = fixture();
    let (matched, diagnostics) = completed(run(&snapshot, &facts, POLICY));
    assert_eq!(matched, 1);
    assert_eq!(diagnostics.len(), 1);
    assert_eq!(diagnostics[0].file.as_deref(), Some("core/pom.xml"));
    assert!(matches!(evidence(&diagnostics[0], "to"), Evidence::Text(t) if t == "g:infra"));
    assert!(matches!(evidence(&diagnostics[0], "producer"), Evidence::Text(t) if t == "facts-core"));
    let reverse = r#"{"modules":["core","infra"],"forbidden":[{"from":"g:infra","to":"g:core"}]}"#;
    assert_eq!(completed(run(&snapshot, &facts, reverse)).1.len(), 0);
    let scope = r#"{"modules":["core","infra"],"forbidden":[{"from":"g:core","to":"g:infra","scopes":["test"]}]}"#;
    assert_eq!(completed(run(&snapshot, &facts, scope)).1.len(), 0);
    let mut repaired = facts.clone();
    repaired[0].declared.clear();
    assert_eq!(completed(run(&snapshot, &repaired, POLICY)).1.len(), 0);
}

#[test]
fn resolved_classpath_checks_transitive_dependencies_without_duplicate_diagnostics() {
    let (snapshot, facts) = fixture();
    let declared = r#"{"modules":["core","infra"],"forbidden":[{"from":"g:*","to":"g:transport"},{"from":"g:core","to":"*:transport"}]}"#;
    assert_eq!(completed(run(&snapshot, &facts, declared)).1.len(), 0);
    let resolved = r#"{"modules":["core","infra"],"forbidden":[{"from":"g:*","to":"g:transport"},{"from":"g:core","to":"*:transport"}],"dependency_kind":"resolved"}"#;
    let (matched, diagnostics) = completed(run(&snapshot, &facts, resolved));
    assert_eq!(matched, 2);
    assert_eq!(diagnostics.len(), 1);
    assert!(matches!(evidence(&diagnostics[0], "matching_directions"), Evidence::Indices(v) if v == &vec![0, 1]));
    let reversed = r#"{"modules":["core","infra"],"forbidden":[{"from":"g:core","to":"*:transport"},{"from":"g:*","to":"g:transport"}],"dependency_kind":"resolved"}"#;
    let mut version = facts;
    version[0].coordinate = "g:core:2".into();
    let (_, repeated) = completed(run(&snapshot, &version, reversed));
    assert_eq!(diagnostics[0].fingerprint, repeated[0].fingerprint);
}

#[test]
fn missing_ambiguous_foreign_or_unsupported_module_facts_are_never_passes() {
    let (snapshot, facts) = fixture();
    for missing in [vec![], vec![facts[0].clone()], vec![facts[0].clone(), facts[0].clone(), facts[1].clone()]] {
        assert_eq!(blocked(run(&snapshot, &missing, POLICY)), RuleError::ModuleFactsUnavailable);
    }
    let alter = |change: &dyn Fn(&mut ProjectFacts)| {
        let mut altered = facts.clone();
        change(&mut altered[0]);
        blocked(run(&snapshot, &altered, POLICY))
    };
    assert_eq!(alter(&|p| p.schema_version = 2), RuleError::ForeignProjectFacts);
    assert_eq!(alter(&|p| p.ecosystem = "unavailable".into()), RuleError::ForeignProjectFacts);
    assert_eq!(alter(&|p| p.snapshot_digest = "unavailable".into()), RuleError::ForeignProjectFacts);
    assert_eq!(alter(&|p| p.manifest = "unavailable".into()), RuleError::ManifestAbsent);
    assert_eq!(alter(&|p| p.coordinate = "g:infra:1".into()), RuleError::DuplicateModule);
}

#[test]
fn module_boundary_policies_are_checked_before_the_facts() {
    let (snapshot, facts) = fixture();
    let cases = [
        (r#"{"forbidden":[]}"#, RuleError::MissingParameter),
        (r#"{"modules":["core"]}"#, RuleError::MissingParameter),
        (r#"{"modules":"core","forbidden":[]}"#, RuleError::InvalidParameter),
        (r#"{"modules":["core"],"forbidden":[{"from":"g:core"}]}"#, RuleError::InvalidParameter),
        (r#"{"modules":["core"],"forbidden":[],"dependency_kind":"effective"}"#, RuleError::InvalidParameter),
        (r#"{"modules":["core"],"forbidden":[{"from":"[","to":"g:infra"}]}"#, RuleError::InvalidGlob),
    ];
    for (policy, error) in cases {
        assert_eq!(blocked(run(&snapshot, &facts, policy)), error);
    }
    let mut malformed = facts.clone();
    malformed[0].coordinate = "core".into();
    assert_eq!(blocked(run(&snapshot, &malformed, POLICY)), RuleError::MalformedCoordinate);
    let (matched, diagnostics) = completed(run(&snapshot, &facts, r#"{"modules":[],"forbidden":[]}"#));
    assert_eq!((matched, diagnostics.len()), (0, 0));
}
