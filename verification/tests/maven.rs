use qualitygate::maven::{parse, DependencyTree, MavenError, MavenProject};
use qualitygate::maven_usage::ProjectFacts;
use qualitygate::paths::PathError;
use qualitygate::provenance::File;
use qualitygate::rules::Snapshot;

const ROOT: &str = "/work";

fn node(group: &str, artifact: &str, version: &str, scope: &str, optional: &str, children: Vec<DependencyTree>) -> DependencyTree {
    DependencyTree {
        group_id: group.into(),
        artifact_id: artifact.into(),
        version: version.into(),
        artifact_type: "jar".into(),
        classifier: String::new(),
        scope: scope.into(),
        optional: optional.into(),
        children,
    }
}

fn tree() -> DependencyTree {
    node(
        "fixture",
        "sample",
        "1",
        "",
        "false",
        vec![node(
            "junit",
            "junit",
            "4.13.2",
            "test",
            "true",
            vec![node("org.hamcrest", "hamcrest-core", "1.3", "test", "false", vec![])],
        )],
    )
}

fn inputs() -> (Snapshot, MavenProject, String) {
    let snapshot = Snapshot {
        files: vec![(
            "module/pom.xml".into(),
            File { bytes: b"<project><artifactId>sample</artifactId></project>".to_vec(), executable: false },
        )],
        base_files: vec![],
        changes: vec![],
        commits: vec![],
        content_digest: "digest".into(),
    };
    let spec = MavenProject {
        root: "module".into(),
        effective_pom: "effective.xml".into(),
        dependency_tree: "tree.json".into(),
    };
    let model = format!(
        "<project><modelVersion>4.0.0</modelVersion><groupId>fixture</groupId><artifactId>sample</artifactId><version>1</version><build><sourceDirectory>{ROOT}/module/src/main/java</sourceDirectory><testSourceDirectory>{ROOT}/module/src/test/java</testSourceDirectory></build><dependencies><dependency><groupId>junit</groupId><artifactId>junit</artifactId><version>4.13.2</version><scope>test</scope></dependency></dependencies></project>"
    );
    (snapshot, spec, model)
}

fn read(model: &str, tree: &DependencyTree) -> Result<ProjectFacts, MavenError> {
    let (snapshot, spec, _) = inputs();
    parse(&spec, model.as_bytes(), tree, ROOT, &snapshot, "facts")
}

#[test]
fn effective_model_resolution_and_test_classpath_are_distinct_facts() {
    let (_, _, model) = inputs();
    let facts = read(&model, &tree()).unwrap();
    assert_eq!(facts.source_root, "module/src/main/java");
    assert_eq!(facts.test_source_root, "module/src/test/java");
    assert_eq!(facts.manifest, "module/pom.xml");
    assert_eq!(facts.coordinate, "fixture:sample:1");
    assert_eq!(facts.snapshot_digest, "digest");
    assert_eq!(facts.producer_check, "facts");
    assert_eq!(facts.resolved.len(), 2);
    assert_eq!(facts.resolved[0].artifact, "junit");
    assert_eq!(facts.resolved[1].artifact, "hamcrest-core");
    assert_eq!(facts.declared.len(), 1);
    assert_eq!(facts.declared[0].artifact_type, "jar");
    assert_eq!(facts.declared[0].scope, "test");
    let runtime = model.replace("<scope>test</scope>", "<scope>runtime</scope>");
    let mut runtime_tree = tree();
    runtime_tree.children[0].scope = "runtime".into();
    assert_eq!(read(&runtime, &runtime_tree).unwrap().declared[0].scope, "runtime");
    let classified = model.replace("<scope>test</scope>", "<scope>test</scope><classifier>sources</classifier>");
    let mut classified_tree = tree();
    classified_tree.children[0].classifier = "sources".into();
    assert_eq!(read(&classified, &classified_tree).unwrap().declared[0].classifier, "sources");
}

#[test]
fn malformed_filtered_foreign_and_unresolved_maven_reports_are_incomplete() {
    let (snapshot, spec, model) = inputs();
    for (altered, reason) in [
        (model.replace("<project>", "<projects><project>").replace("</project>", "</project></projects>"), MavenError::NotEffectiveProject),
        (model.replace("4.0.0", "4.1.0"), MavenError::NotEffectiveProject),
        (model.replace("<artifactId>sample</artifactId>", "<artifactId>other</artifactId>"), MavenError::ForeignManifest),
        (model.replace("<groupId>fixture</groupId>", "<groupId>fixture</groupId><groupId>ambiguous</groupId>"), MavenError::DuplicateElement),
        (model.replace("<version>1</version>", "<version>${unresolved}</version>"), MavenError::UnresolvedElement),
        (model.replace("<version>1</version>", "<version> </version>"), MavenError::UnresolvedElement),
        (model.replace("build>", "absent>"), MavenError::MissingBuild),
        (model.replace(ROOT, "relative"), MavenError::RelativeSourceRoot),
        (model.replace("/module/src/", "/outside/src/"), MavenError::SourceOutsideModule),
        (model.replace("/src/main/java", "/src/test/java"), MavenError::AmbiguousSourceRoots),
        (model.replace("<scope>test</scope>", "<scope>import</scope>"), MavenError::UnsupportedScope),
        (model.replace("4.13.2", "not resolved"), MavenError::InvalidCoordinate),
        (model.replace("<dependency>", "<typo>").replace("</dependency>", "</typo>"), MavenError::UnexpectedDependency),
        (model.replace("</dependencies>", "<dependency><groupId>junit</groupId><artifactId>junit</artifactId><version>4.13.2</version></dependency></dependencies>"), MavenError::DuplicateDependency),
        (model.replace(ROOT, "/elsewhere"), MavenError::SourceOutsideWorkspace(PathError::OutsideWorkspace)),
    ] {
        assert_eq!(read(&altered, &tree()).unwrap_err(), reason, "{altered}");
    }
    let mut foreign = tree();
    foreign.group_id = "other".into();
    assert_eq!(read(&model, &foreign).unwrap_err(), MavenError::ForeignTree);
    let mut optional = tree();
    optional.optional = "invalid".into();
    assert_eq!(read(&model, &optional).unwrap_err(), MavenError::InvalidOptional);
    let mut filtered = tree();
    filtered.children.clear();
    assert_eq!(read(&model, &filtered).unwrap_err(), MavenError::TreeMismatch);
    let mut missing = snapshot.clone();
    missing.files.clear();
    assert_eq!(
        parse(&spec, model.as_bytes(), &tree(), ROOT, &missing, "facts").unwrap_err(),
        MavenError::MissingManifest
    );
    assert_eq!(
        parse(&spec, &[0xff], &tree(), ROOT, &snapshot, "facts").unwrap_err(),
        MavenError::InvalidModel
    );
}

#[test]
fn dependency_trees_beyond_the_depth_budget_are_refused() {
    let (_, _, model) = inputs();
    let mut deep = node("x", "leaf", "1", "test", "false", vec![]);
    for level in 0..64 {
        deep = node("x", &format!("level{level}"), "1", "test", "false", vec![deep]);
    }
    let mut root = tree();
    root.children[0].children.push(deep);
    assert_eq!(read(&model, &root).unwrap_err(), MavenError::TreeTooLarge);
}
