use qualitygate::maven_usage::{coordinate, parse, DependencyFact, MavenUsageError, ProjectFacts};
use qualitygate::provenance::File;
use qualitygate::rules::Snapshot;

const PREFIX: &str = "[INFO] --- clean:3.2.0:clean (default-clean) @ sample ---\n[INFO] --- compiler:3.13.0:testCompile (default-testCompile) @ sample ---\n[INFO] Compiling 1 source file with javac [debug target 17] to target/test-classes\n[INFO] --- dependency:3.8.1:analyze-only (default-cli) @ sample ---\n";
const SUFFIX: &str = "[INFO] ------------------------------------------------------------------------\n[INFO] BUILD SUCCESS\n";
const MISSING: &str = "[WARNING] Used undeclared dependencies found:\n[WARNING]    org.hamcrest:hamcrest-core:jar:1.3:test\n[WARNING] Unused declared dependencies found:\n[WARNING]    junit:junit:jar:4.13.2:test\n";

fn dependency(group: &str, artifact: &str, version: &str) -> DependencyFact {
    DependencyFact {
        group: group.into(),
        artifact: artifact.into(),
        artifact_type: "jar".into(),
        classifier: String::new(),
        version: version.into(),
        scope: "test".into(),
    }
}

fn file(bytes: &[u8]) -> File {
    File { bytes: bytes.to_vec(), executable: false }
}

fn fixture() -> (Snapshot, ProjectFacts) {
    let junit = dependency("junit", "junit", "4.13.2");
    let hamcrest = dependency("org.hamcrest", "hamcrest-core", "1.3");
    let facts = ProjectFacts {
        schema_version: 1,
        ecosystem: "maven".into(),
        root: ".".into(),
        manifest: "pom.xml".into(),
        coordinate: "fixture:sample:1".into(),
        source_root: "src/main/java".into(),
        test_source_root: "src/test/java".into(),
        declared: vec![junit.clone()],
        resolved: vec![junit, hamcrest],
        dependency_usage: None,
        producer_check: "facts".into(),
        snapshot_digest: "digest".into(),
    };
    let snapshot = Snapshot {
        files: vec![
            ("pom.xml".into(), file(b"<project/>")),
            ("src/test/java/T.java".into(), file(b"class T {}")),
        ],
        base_files: vec![],
        changes: vec![],
        commits: vec![],
        content_digest: "digest".into(),
    };
    (snapshot, facts)
}

#[test]
fn incomplete_filtered_foreign_and_contradictory_analysis_cannot_pass() {
    let (snapshot, facts) = fixture();
    let log = format!("{PREFIX}{MISSING}{SUFFIX}");
    for altered in [
        String::new(),
        log.replace("BUILD SUCCESS", "BUILD FAILURE"),
        log.replace("default-clean", "other-clean"),
        log.replace("1 source file", "2 source files"),
        log.replace("Compiling 1 source file", "Nothing to compile"),
        log.replace("3.8.1:analyze-only", "3.9.0:analyze-only"),
        log.replace("@ sample ---", "@ other ---"),
        format!("{PREFIX}[INFO] Skipping plugin execution\n{SUFFIX}"),
        format!("{PREFIX}[INFO] Skipping project with no build directory\n{SUFFIX}"),
        format!("{PREFIX}[WARNING] Used undeclared dependencies found:\n{SUFFIX}"),
        format!("{PREFIX}{MISSING}"),
        format!("{PREFIX}{MISSING}[INFO] No dependency problems found\n{SUFFIX}"),
        format!("{PREFIX}{MISSING}{MISSING}{SUFFIX}"),
        format!("{PREFIX}[INFO] No dependency problems found\n{MISSING}{SUFFIX}"),
        log.replace(
            "org.hamcrest:hamcrest-core:jar:1.3:test",
            "unknown:artifact:jar:1.3:test",
        ),
        log.replace(
            "org.hamcrest:hamcrest-core:jar:1.3:test",
            "junit:junit:jar:4.13.2:test",
        ),
        log.replace(
            "junit:junit:jar:4.13.2:test",
            "org.hamcrest:hamcrest-core:jar:1.3:test",
        ),
        log.replace(
            "org.hamcrest:hamcrest-core:jar:1.3:test",
            "org.hamcrest:hamcrest-core:jar:1.3:import",
        ),
        log.replace("org.hamcrest:hamcrest-core:jar:1.3:test", "invalid"),
        format!("{log}[INFO] --- compiler:3.13.0:compile (default-compile) @ sample ---\n"),
        format!("{PREFIX}Unable to process class\n{SUFFIX}"),
        format!("{PREFIX}[INFO] unexpected analyzer output\n{SUFFIX}"),
        format!("{log}\0"),
        format!("\x1b[0m{log}"),
    ] {
        assert!(
            parse(b"<project/>", altered.as_bytes(), &facts, &snapshot).is_err(),
            "{altered}"
        );
    }
    let mut empty = snapshot.clone();
    empty.files.clear();
    assert!(parse(b"<project/>", log.as_bytes(), &facts, &empty).is_err());
    assert!(parse(b"<project/>", &[0xff], &facts, &snapshot).is_err());
}

#[test]
fn suppression_overrides_and_custom_analyzers_require_explicit_support() {
    let (snapshot, facts) = fixture();
    let log = format!("{PREFIX}{MISSING}{SUFFIX}");
    let model = |artifact: &str, config: &str| {
        format!(
            "<project><build><plugins><plugin><artifactId>{artifact}</artifactId>{config}</plugin></plugins></build></project>"
        )
    };
    for config in [
        "<configuration><ignoredUsedUndeclaredDependencies><ignored>*</ignored></ignoredUsedUndeclaredDependencies></configuration>",
        "<configuration><excludedClasses>.*</excludedClasses></configuration>",
        "<configuration><analyzer>custom</analyzer></configuration>",
        "<dependencies/>",
    ] {
        assert!(
            parse(
                model("maven-dependency-plugin", config).as_bytes(),
                log.as_bytes(),
                &facts,
                &snapshot
            )
            .is_err()
        );
    }
    for key in [
        "skip",
        "excludes",
        "includes",
        "compilerId",
        "compilerArgs",
        "outputDirectory",
    ] {
        assert!(
            parse(
                model(
                    "maven-compiler-plugin",
                    &format!("<configuration><{key}>custom</{key}></configuration>")
                )
                .as_bytes(),
                log.as_bytes(),
                &facts,
                &snapshot
            )
            .is_err()
        );
    }
    assert!(parse(model("maven-dependency-plugin","<configuration><verbose>false</verbose><analyzer>default</analyzer></configuration>").as_bytes(),log.as_bytes(),&facts,&snapshot).is_ok());
    assert_eq!(
        coordinate("g:a:test-jar:tests:1:test").unwrap().classifier,
        "tests"
    );
}

#[test]
fn main_and_test_compilations_have_separate_complete_inventories() {
    let (mut snapshot, facts) = fixture();
    snapshot
        .files
        .push(("src/main/java/Main.java".into(), file(b"class Main {}")));
    let prefix = PREFIX.replace("[INFO] --- compiler:3.13.0:testCompile", "[INFO] --- compiler:3.13.0:compile (default-compile) @ sample ---\n[INFO] Compiling 1 source file with javac to target/classes\n[INFO] --- compiler:3.13.0:testCompile");
    let log = format!("{prefix}{MISSING}{SUFFIX}");
    let usage = parse(b"<project/>", log.as_bytes(), &facts, &snapshot).unwrap();
    assert_eq!(usage.compiled_main_sources, 1);
    assert_eq!(usage.compiled_test_sources, 1);
    let skipped = log.replace(
        "Compiling 1 source file with javac to target/classes",
        "Nothing to compile",
    );
    assert!(parse(b"<project/>", skipped.as_bytes(), &facts, &snapshot).is_err());
    let wrong = log.replace("(default-compile)", "(other-module)");
    assert!(parse(b"<project/>", wrong.as_bytes(), &facts, &snapshot).is_err());
    let cleared = log.replace(
        "[INFO] --- dependency:",
        "[INFO] --- clean:3.2.0:clean (default-clean) @ sample ---\n[INFO] --- dependency:",
    );
    assert!(parse(b"<project/>", cleared.as_bytes(), &facts, &snapshot).is_err());
}

#[test]
fn bytecode_usage_reports_compiled_sources_and_missing_declarations() {
    let (snapshot, mut facts) = fixture();
    let log = format!("{PREFIX}{MISSING}{SUFFIX}");
    let usage = parse(b"<project/>", log.as_bytes(), &facts, &snapshot).unwrap();
    assert_eq!(usage.analyzer, "maven-dependency-plugin:3.8.1/default");
    assert_eq!(usage.compiled_main_sources, 0);
    assert_eq!(usage.compiled_test_sources, 1);
    assert_eq!(usage.used_undeclared.len(), 1);
    assert_eq!(usage.used_undeclared[0].artifact, "hamcrest-core");
    facts.declared.push(facts.resolved[1].clone());
    let clean = parse(
        b"<project/>",
        format!("{PREFIX}[INFO] No dependency problems found\n{SUFFIX}").as_bytes(),
        &facts,
        &snapshot,
    )
    .unwrap();
    assert!(clean.used_undeclared.is_empty());
}

#[test]
fn used_undeclared_dependencies_come_back_in_ascending_order() {
    let (snapshot, mut facts) = fixture();
    facts.resolved.push(dependency("aaa", "first", "1"));
    let section = "[WARNING] Used undeclared dependencies found:\n[WARNING]    org.hamcrest:hamcrest-core:jar:1.3:test\n[WARNING]    aaa:first:jar:1:test\n";
    let usage = parse(b"<project/>", format!("{PREFIX}{section}{SUFFIX}").as_bytes(), &facts, &snapshot).unwrap();
    let groups: Vec<&str> = usage.used_undeclared.iter().map(|d| d.group.as_str()).collect();
    assert_eq!(groups, vec!["aaa", "org.hamcrest"]);
}

#[test]
fn each_refusal_names_its_reason() {
    let (snapshot, mut facts) = fixture();
    let log = format!("{PREFIX}{MISSING}{SUFFIX}");
    let reason = |log: &str, facts: &ProjectFacts| parse(b"<project/>", log.as_bytes(), facts, &snapshot).unwrap_err();
    assert_eq!(reason(&format!("{log}\0"), &facts), MavenUsageError::NotPlain);
    assert_eq!(reason(&log.replace("BUILD SUCCESS", "BUILD FAILURE"), &facts), MavenUsageError::Incomplete);
    assert_eq!(reason(&log.replace("1 source file", "2 source files"), &facts), MavenUsageError::InventoryMismatch);
    assert_eq!(reason(&format!("{log}[INFO] --- compiler:3.13.0:compile (default-compile) @ sample ---\n"), &facts), MavenUsageError::NotFinal);
    assert_eq!(reason(&format!("{PREFIX}{MISSING}{MISSING}{SUFFIX}"), &facts), MavenUsageError::DuplicateSection);
    assert_eq!(reason(&log.replace(":1.3:test", ":1.3:import"), &facts), MavenUsageError::UnsupportedScope);
    assert_eq!(reason(&log.replace("org.hamcrest:hamcrest-core:jar:1.3:test", "invalid"), &facts), MavenUsageError::MalformedArtifact);
    assert_eq!(reason(&log.replace("Compiling 1 source", "Compiling 99999999999999999999999 source"), &facts), MavenUsageError::CountOverflow);
    assert_eq!(reason(&log.replace("Compiling 1 source", "Compiling 01 source"), &facts), MavenUsageError::InventoryMismatch);
    facts.coordinate = "sample".into();
    assert_eq!(reason(&log, &facts), MavenUsageError::InvalidIdentity);
    let (_, facts) = fixture();
    assert_eq!(
        parse(b"<project>", log.as_bytes(), &facts, &snapshot).unwrap_err(),
        MavenUsageError::InvalidModel
    );
    assert_eq!(coordinate("g:a:jar:${v}:test").unwrap_err(), MavenUsageError::MalformedArtifact);
    assert_eq!(coordinate("g:a:jar:1").unwrap_err(), MavenUsageError::MalformedArtifact);
    let plain = coordinate("g:a:jar:1:compile").unwrap();
    assert_eq!((plain.classifier.as_str(), plain.version.as_str(), plain.scope.as_str()), ("", "1", "compile"));
}
